use vstd::prelude::*;
use vstd::string::*;
use dashmap::DashMap;
use dashmap::try_result::TryResult;
use crate::concurrent::Lookup;
use crate::errors::{DirectoryError, DocumentError, MakepadAnalyzerError};
use crate::manifest::{manifest_above, MakepadManifestFile};
use crate::paths::{
    ends_with, file_name, file_name_of, has_suffix, is_under, join, joined,
    lemma_rebase_round_trip, parent, parent_of, rebase, rebased, same_text,
};
use crate::uri::{file_path, file_path_of, file_uri, file_uri_of};

verus! {

/// The two directories of a project: the one that holds its manifest, and
/// the private mirror of it.
#[derive(Clone, Copy, Debug, PartialEq, Eq, Hash, Structural)]
pub enum Directory {
    Manifest,
    Temp,
}

/// The paths that a map of directories holds, by the kind of directory.
pub uninterp spec fn directories_held(dirs: DashMap<Directory, String>) -> Map<
    Directory,
    Seq<char>,
>;

/// `DashMap::new`: the new map holds nothing.
#[verifier::external_body]
fn dirs_new() -> (made: DashMap<Directory, String>)
    ensures
        (directories_held(made) == Map::<Directory, Seq<char>>::empty()),
{
    DashMap::new()
}

/// `DashMap::insert`: the map then holds the path under the key.
#[verifier::external_body]
fn dirs_insert(dirs: &mut DashMap<Directory, String>, which: Directory, path: String)
    ensures
        directories_held(*final(dirs)) == directories_held(*old(dirs)).insert(which, path@),
{
    let _ = dirs.insert(which, path);
}

/// `DashMap::try_get`: a copy of the path if the map could be read and holds
/// the key, `Absent` if it could be read and does not; `Locked` can come
/// back whatever the map holds.
#[verifier::external_body]
fn dirs_try_get(dirs: &DashMap<Directory, String>, which: Directory) -> (found: Lookup<String>)
    ensures
        found matches Lookup::Present(path) ==> directories_held(*dirs).contains_key(which)
            && path@ == directories_held(*dirs)[which],
        found is Absent ==> !directories_held(*dirs).contains_key(which),
{
    match dirs.try_get(&which) {
        TryResult::Present(entry) => Lookup::Present(entry.value().clone()),
        TryResult::Absent => Lookup::Absent,
        TryResult::Locked => Lookup::Locked,
    }
}

/// `DashMap::clone`: the copy holds what the map holds.
#[verifier::external_body]
fn dirs_clone(dirs: &DashMap<Directory, String>) -> (copy: DashMap<Directory, String>)
    ensures
        directories_held(copy) == directories_held(*dirs),
{
    dirs.clone()
}

/// Whether a file of this name is taken into the mirror: a source file, the
/// manifest, or the lock file.
pub open spec fn is_mirrored(name: Seq<char>) -> bool {
    ends_with(name, ".rs"@) || name == "Cargo.toml"@ || name == "Cargo.lock"@
}

/// Whether the file at `path` is taken into the mirror.
pub open spec fn is_mirrored_path(path: Seq<char>) -> bool {
    file_name_of(path) matches Some(name) && is_mirrored(name)
}

/// The texts of a list of strings.
pub open spec fn texts(list: Seq<String>) -> Seq<Seq<char>> {
    list.map_values(|text: String| text@)
}

/// The identifier that `uri` becomes when the path of the file it names,
/// found under `old_base`, is put under `new_base`.
pub enum Converted {
    /// The new identifier.
    Moved(Seq<char>),
    /// `uri` names no file.
    NoUrl,
    /// The path of `uri` does not lie under `old_base`.
    NotBelow(Seq<char>),
    /// No `file` URL can be made of the new path.
    NoFileUrl(Seq<char>),
}

/// What `convert_url` makes of an identifier.
pub open spec fn converted(uri: Seq<char>, new_base: Seq<char>, old_base: Seq<char>) -> Converted {
    match file_path_of(uri) {
        None => Converted::NoUrl,
        Some(path) => match rebased(path, old_base, new_base) {
            None => Converted::NotBelow(path),
            Some(moved) => match file_uri_of(moved) {
                None => Converted::NoFileUrl(moved),
                Some(made) => Converted::Moved(made),
            },
        },
    }
}

/// Whether `outcome` is what `expected` stands for.
pub open spec fn is_conversion(
    outcome: Result<String, DirectoryError>,
    uri: Seq<char>,
    expected: Converted,
) -> bool {
    match expected {
        Converted::Moved(made) => outcome matches Ok(given) && given@ == made,
        Converted::NoUrl => outcome matches Err(DirectoryError::PathFromUrlFailed { url })
            && url@ == uri,
        Converted::NotBelow(path) => outcome matches Err(
            DirectoryError::StripPrefixError { path: given },
        ) && given@ == path,
        Converted::NoFileUrl(path) => outcome matches Err(
            DirectoryError::UrlFromPathFailed { path: given },
        ) && given@ == path,
    }
}

/// Rewrites the identifier `uri`: the path of the file that it names has
/// the base `old_base` that it starts with taken off, and what is left is
/// put under `new_base` and named by an identifier again.
pub fn convert_url(uri: &str, new_base: &str, old_base: &str) -> (outcome: Result<
    String,
    DirectoryError,
>)
    ensures
        is_conversion(outcome, uri@, converted(uri@, new_base@, old_base@)),
{
    let path = match file_path(uri) {
        Some(path) => path,
        None => {
            return Err(DirectoryError::PathFromUrlFailed { url: uri.to_owned() });
        },
    };
    let moved = match rebase(path.as_str(), old_base, new_base) {
        Some(moved) => moved,
        None => {
            return Err(DirectoryError::StripPrefixError { path });
        },
    };
    match file_uri(moved.as_str()) {
        Some(made) => Ok(made),
        None => Err(DirectoryError::UrlFromPathFailed { path: moved }),
    }
}

/// An identifier that was rewritten from under `source` to under `sandbox`
/// comes back when it is rewritten from under `sandbox` to under `source`,
/// where identifiers and paths name each other: the identifier made names
/// the path it was made of, and `uri` is the identifier that is made of its
/// own path.
pub proof fn lemma_identifier_round_trip(uri: Seq<char>, source: Seq<char>, sandbox: Seq<char>)
    ensures
        converted(uri, sandbox, source) matches Converted::Moved(there) ==> (file_path_of(there)
            == rebased(file_path_of(uri)->0, source, sandbox) && file_uri_of(
            file_path_of(uri)->0,
        ) == Some(uri) ==> converted(there, source, sandbox) == Converted::Moved(uri)),
{
    if let Converted::Moved(there) = converted(uri, sandbox, source) {
        let path = file_path_of(uri)->0;
        assert(is_under(path, source));
        lemma_rebase_round_trip(path, source, sandbox);
    }
}

/// An identifier whose file lies neither at `old_base` nor below it is not
/// rewritten: the path is reported as not below the base.
pub proof fn lemma_outside_is_refused(
    uri: Seq<char>,
    path: Seq<char>,
    new_base: Seq<char>,
    old_base: Seq<char>,
)
    ensures
        file_path_of(uri) == Some(path) && !is_under(path, old_base) ==> converted(
            uri,
            new_base,
            old_base,
        ) == Converted::NotBelow(path),
{
}

/// Whether a file of this name is taken into the mirror.
pub fn is_mirrored_name(name: &str) -> (r: bool)
    ensures
        r == is_mirrored(name@),
{
    has_suffix(name, ".rs") || same_text(name, "Cargo.toml") || same_text(name, "Cargo.lock")
}

/// Whether the file at `path` is taken into the mirror.
pub fn is_mirrored_file(path: &str) -> (r: bool)
    ensures
        r == is_mirrored_path(path@),
{
    match file_name(path) {
        Some(name) => is_mirrored_name(name.as_str()),
        None => false,
    }
}

/// Of the files of a project, given by their paths below its directory,
/// those that are taken into the mirror, in the order given.
pub fn mirror_plan(files: &Vec<String>) -> (plan: Vec<String>)
    ensures
        texts(plan@) == texts(files@).filter(|path: Seq<char>| is_mirrored_path(path)),
{
    broadcast use {Seq::lemma_filter_push, Seq::lemma_push_map_commute};

    let ghost wanted = |path: Seq<char>| is_mirrored_path(path);
    let ghost view = |text: String| text@;
    let mut plan: Vec<String> = Vec::new();
    let mut i: usize = 0;
    proof {
        assert(files@.take(0) =~= Seq::<String>::empty());
        assert(texts(files@.take(0)) =~= Seq::<Seq<char>>::empty());
        assert(texts(plan@) =~= Seq::<Seq<char>>::empty());
        reveal(Seq::filter);
    }
    while i < files.len()
        invariant
            i <= files@.len(),
            wanted == |path: Seq<char>| is_mirrored_path(path),
            view == |text: String| text@,
            texts(plan@) == texts(files@.take(i as int)).filter(wanted),
        decreases files@.len() - i,
    {
        proof {
            assert(files@.take(i + 1) =~= files@.take(i as int).push(files@[i as int]));
            files@.take(i as int).lemma_push_map_commute(view, files@[i as int]);
            assert(texts(files@.take(i + 1)) =~= texts(files@.take(i as int)).push(
                files@[i as int]@,
            ));
            texts(files@.take(i as int)).lemma_filter_push(files@[i as int]@, wanted);
        }
        if is_mirrored_file(files[i].as_str()) {
            proof {
                plan@.lemma_push_map_commute(view, files@[i as int]);
            }
            plan.push(files[i].clone());
            assert(texts(plan@) =~= texts(files@.take(i + 1)).filter(wanted));
        }
        i += 1;
    }
    assert(files@.take(files@.len() as int) =~= files@);
    plan
}

/// The directory that holds the file at `path`, or the empty path where it
/// lies in none.
pub open spec fn directory_of(path: Seq<char>) -> Seq<char> {
    match parent_of(path) {
        Some(dir) => dir,
        None => Seq::empty(),
    }
}

/// The directories that the mirror needs for the files planned: for each
/// file, in order, the directory that holds it. No other directory is made.
pub fn mirror_directories(plan: &Vec<String>) -> (dirs: Vec<String>)
    ensures
        dirs@.len() == plan@.len(),
        forall|k: int| 0 <= k < dirs@.len() ==> (#[trigger] dirs@[k])@ == directory_of(plan@[k]@),
{
    let mut dirs: Vec<String> = Vec::new();
    let mut i: usize = 0;
    while i < plan.len()
        invariant
            i <= plan@.len(),
            dirs@.len() == i,
            forall|k: int| 0 <= k < i ==> (#[trigger] dirs@[k])@ == directory_of(plan@[k]@),
        decreases plan@.len() - i,
    {
        let dir = match parent(plan[i].as_str()) {
            Some(dir) => dir,
            None => String::new(),
        };
        dirs.push(dir);
        i += 1;
    }
    dirs
}

/// Every directory that the mirror gets holds a file that passes the
/// filter: a directory of the project without such a file is not made.
pub proof fn lemma_no_empty_directory(files: Seq<Seq<char>>, k: int)
    requires
        0 <= k < files.filter(|path: Seq<char>| is_mirrored_path(path)).len(),
    ensures
        files.contains(files.filter(|path: Seq<char>| is_mirrored_path(path))[k]),
        is_mirrored_path(files.filter(|path: Seq<char>| is_mirrored_path(path))[k]),
{
    let kept = files.filter(|path: Seq<char>| is_mirrored_path(path));
    assert(kept.contains(kept[k]));
    lemma_mirror_filter(files, kept[k]);
}

/// Nothing but files that pass the filter is planned, and every file that
/// passes it is.
pub proof fn lemma_mirror_filter(files: Seq<Seq<char>>, path: Seq<char>)
    ensures
        files.filter(|path: Seq<char>| is_mirrored_path(path)).contains(path) <==> files.contains(
            path,
        ) && is_mirrored_path(path),
{
    let wanted = |path: Seq<char>| is_mirrored_path(path);
    let kept = files.filter(wanted);
    files.filter_lemma(wanted);
    if kept.contains(path) {
        let i = choose|i: int| 0 <= i < kept.len() && kept[i] == path;
        assert(wanted(kept[i]));
        files.lemma_filter_contains_rev(wanted, path);
    }
    if files.contains(path) && is_mirrored_path(path) {
        let i = choose|i: int| 0 <= i < files.len() && files[i] == path;
        assert(wanted(files[i]));
    }
}

/// Where a project that is looked for from some path lies, and where its
/// mirror is to lie.
pub enum Placement {
    /// The project's directory and, below the directory made for it, the
    /// directory of its mirror.
    Placed { source: Seq<char>, sandbox: Seq<char> },
    /// No directory on the way up holds a manifest file.
    NoManifest,
    /// The manifest file found lies in no directory.
    NoDirectory,
    /// The directory that holds the manifest has no name.
    NoName(Seq<char>),
}

/// The placement of the project that `start` belongs to, where `existing`
/// lists the files that exist: its directory is the one that holds the
/// nearest manifest file, and its mirror lies below `temp_root` under the
/// name of that directory.
pub open spec fn placement(start: Seq<char>, existing: Seq<String>, temp_root: Seq<char>) -> Placement {
    match manifest_above(start, existing) {
        None => Placement::NoManifest,
        Some(manifest) => match parent_of(manifest) {
            None => Placement::NoDirectory,
            Some(root) => match file_name_of(root) {
                None => Placement::NoName(root),
                Some(name) => Placement::Placed { source: root, sandbox: joined(temp_root, name) },
            },
        },
    }
}

/// Whether `error` is the one that stands for a project that could not be
/// placed, looked for from `start`.
pub open spec fn is_placement_error(
    error: MakepadAnalyzerError,
    start: Seq<char>,
    outcome: Placement,
) -> bool {
    match outcome {
        Placement::Placed { .. } => false,
        Placement::NoManifest => error matches MakepadAnalyzerError::DocumentError(
            DocumentError::ManifestFileNotFound { dir },
        ) && dir@ == start,
        Placement::NoDirectory => error == MakepadAnalyzerError::DirectoryError(
            DirectoryError::ManifestDirNotFound,
        ),
        Placement::NoName(root) => error matches MakepadAnalyzerError::DirectoryError(
            DirectoryError::CantExtractProjectName { dir },
        ) && dir@ == root,
    }
}

/// The directories of one project: where its sources lie and where their
/// mirror lies. Both are set together, or neither is.
pub struct SyncWorkspace {
    directories: DashMap<Directory, String>,
}

impl Clone for SyncWorkspace {
    fn clone(&self) -> (copy: Self)
        ensures
            copy.source() == self.source(),
            copy.sandbox() == self.sandbox(),
    {
        SyncWorkspace { directories: dirs_clone(&self.directories) }
    }
}

impl SyncWorkspace {
    /// The directory that holds the manifest, once set.
    pub closed spec fn source(&self) -> Option<Seq<char>> {
        if directories_held(self.directories).contains_key(Directory::Manifest) {
            Some(directories_held(self.directories)[Directory::Manifest])
        } else {
            None
        }
    }

    /// The directory that holds the mirror, once set.
    pub closed spec fn sandbox(&self) -> Option<Seq<char>> {
        if directories_held(self.directories).contains_key(Directory::Temp) {
            Some(directories_held(self.directories)[Directory::Temp])
        } else {
            None
        }
    }

    /// Both directories are set, or neither is.
    pub open spec fn wf(&self) -> bool {
        self.source() is Some <==> self.sandbox() is Some
    }

    pub fn new() -> (sync: Self)
        ensures
            sync.source() is None,
            sync.sandbox() is None,
    {
        SyncWorkspace { directories: dirs_new() }
    }

    /// What a lookup that gave `found` amounts to: the path, or `missing`
    /// where none was handed out.
    pub fn lookup_outcome(found: Lookup<String>, missing: DirectoryError) -> (outcome: Result<
        String,
        DirectoryError,
    >)
        ensures
            match found {
                Lookup::Present(path) => outcome matches Ok(given) && given == path,
                _ => outcome matches Err(e) && e == missing,
            },
    {
        match found {
            Lookup::Present(path) => Ok(path),
            _ => Err(missing),
        }
    }

    /// The directory that holds the manifest. `ManifestDirNotFound` comes
    /// back where none is set, and where the directories could not be read.
    pub fn manifest_dir(&self) -> (outcome: Result<String, DirectoryError>)
        ensures
            outcome matches Ok(dir) ==> self.source() == Some(dir@),
            outcome matches Err(e) ==> e is ManifestDirNotFound,
            self.source() is None ==> outcome is Err,
    {
        Self::lookup_outcome(
            dirs_try_get(&self.directories, Directory::Manifest),
            DirectoryError::ManifestDirNotFound,
        )
    }

    /// The directory that holds the mirror. `TempDirNotFound` comes back
    /// where none is set, and where the directories could not be read.
    pub fn temp_dir(&self) -> (outcome: Result<String, DirectoryError>)
        ensures
            outcome matches Ok(dir) ==> self.sandbox() == Some(dir@),
            outcome matches Err(e) ==> e is TempDirNotFound,
            self.sandbox() is None ==> outcome is Err,
    {
        Self::lookup_outcome(
            dirs_try_get(&self.directories, Directory::Temp),
            DirectoryError::TempDirNotFound,
        )
    }

    /// The manifest file that lies in the directory that a lookup gave: the
    /// file of the fixed name in that directory, and none where the lookup
    /// gave no directory.
    pub fn manifest_in(dir: Result<String, DirectoryError>) -> (path: Option<String>)
        ensures
            match dir {
                Ok(found) => path matches Some(given) && given@ == joined(
                    found@,
                    "Cargo.toml"@,
                ),
                Err(_) => path is None,
            },
    {
        match dir {
            Ok(found) => Some(join(found.as_str(), "Cargo.toml")),
            Err(_) => None,
        }
    }

    /// The manifest file of the project. There is none where no directory
    /// is set, and where the directories could not be read.
    pub fn manifest_path(&self) -> (path: Option<String>)
        ensures
            path matches Some(given) ==> self.source() is Some && given@ == joined(
                self.source()->0,
                "Cargo.toml"@,
            ),
            self.source() is None ==> path is None,
    {
        Self::manifest_in(self.manifest_dir())
    }

    /// The manifest file of the mirror. There is none where no directory is
    /// set, and where the directories could not be read.
    pub fn temp_manifest_path(&self) -> (path: Option<String>)
        ensures
            path matches Some(given) ==> self.sandbox() is Some && given@ == joined(
                self.sandbox()->0,
                "Cargo.toml"@,
            ),
            self.sandbox() is None ==> path is None,
    {
        Self::manifest_in(self.temp_dir())
    }

    /// The name of the project that lies in `manifest_dir`: the name of that
    /// directory.
    pub fn project_name(manifest_dir: &str) -> (name: Result<String, DirectoryError>)
        ensures
            match file_name_of(manifest_dir@) {
                Some(expected) => name matches Ok(given) && given@ == expected,
                None => name matches Err(DirectoryError::CantExtractProjectName { dir }) && dir@
                    == manifest_dir@,
            },
    {
        match file_name(manifest_dir) {
            Some(name) => Ok(name),
            None => Err(DirectoryError::CantExtractProjectName { dir: manifest_dir.to_owned() }),
        }
    }

    /// Finds the project that `start` belongs to, where `existing` lists the
    /// files that exist, and says where it lies and where its mirror is to
    /// lie below the fresh directory `temp_root`.
    pub fn locate(start: &str, existing: &Vec<String>, temp_root: &str) -> (found: Result<
        (String, String),
        MakepadAnalyzerError,
    >)
        ensures
            match placement(start@, existing@, temp_root@) {
                Placement::Placed { source, sandbox } => found matches Ok(pair) && pair.0@
                    == source && pair.1@ == sandbox,
                other => found matches Err(e) && is_placement_error(e, start@, other),
            },
    {
        let manifest = match MakepadManifestFile::find_cargo_toml(start, existing) {
            Some(manifest) => manifest,
            None => {
                return Err(
                    MakepadAnalyzerError::DocumentError(
                        DocumentError::ManifestFileNotFound { dir: start.to_owned() },
                    ),
                );
            },
        };
        let root = match parent(manifest.as_str()) {
            Some(root) => root,
            None => {
                return Err(
                    MakepadAnalyzerError::DirectoryError(DirectoryError::ManifestDirNotFound),
                );
            },
        };
        let name = match Self::project_name(root.as_str()) {
            Ok(name) => name,
            Err(e) => {
                return Err(MakepadAnalyzerError::DirectoryError(e));
            },
        };
        let sandbox = join(temp_root, name.as_str());
        Ok((root, sandbox))
    }

    /// Sets both directories.
    pub fn place(&mut self, source: String, sandbox: String)
        ensures
            final(self).source() == Some(source@),
            final(self).sandbox() == Some(sandbox@),
    {
        dirs_insert(&mut self.directories, Directory::Manifest, source);
        dirs_insert(&mut self.directories, Directory::Temp, sandbox);
    }

    /// Finds the project that `start` belongs to, where `existing` lists the
    /// files that exist, and sets both directories: the one that holds the
    /// nearest manifest file, and below the fresh directory `temp_root` one
    /// of the project's name for its mirror. Where no manifest file is
    /// found, or the project has no name, nothing is set.
    pub fn create_temp_dir_from_workspace(
        &mut self,
        start: &str,
        existing: &Vec<String>,
        temp_root: &str,
    ) -> (done: Result<(), MakepadAnalyzerError>)
        ensures
            match placement(start@, existing@, temp_root@) {
                Placement::Placed { source, sandbox } => {
                    &&& done is Ok
                    &&& final(self).source() == Some(source)
                    &&& final(self).sandbox() == Some(sandbox)
                },
                other => {
                    &&& done matches Err(e) && is_placement_error(e, start@, other)
                    &&& final(self).source() == old(self).source()
                    &&& final(self).sandbox() == old(self).sandbox()
                },
            },
    {
        match Self::locate(start, existing, temp_root) {
            Ok((source, sandbox)) => {
                self.place(source, sandbox);
                Ok(())
            },
            Err(e) => Err(e),
        }
    }

    /// The files to copy into the mirror, each with the place it is copied
    /// to: of `files`, given by their paths below the project's directory,
    /// those that pass the filter.
    pub fn resync(&self, files: &Vec<String>) -> (plan: Result<
        Vec<(String, String)>,
        DirectoryError,
    >)
        ensures
            plan matches Ok(copies) ==> {
                &&& self.source() is Some
                &&& self.sandbox() is Some
                &&& copies@.len() == texts(files@).filter(
                    |path: Seq<char>| is_mirrored_path(path),
                ).len()
                &&& forall|k: int|
                    #![trigger copies@[k]]
                    0 <= k < copies@.len() ==> {
                        let path = texts(files@).filter(
                            |path: Seq<char>| is_mirrored_path(path),
                        )[k];
                        &&& copies@[k].0@ == joined(self.source()->0, path)
                        &&& copies@[k].1@ == joined(self.sandbox()->0, path)
                    }
            },
            plan matches Err(e) ==> e is ManifestDirNotFound || e is TempDirNotFound,
            self.source() is None || self.sandbox() is None ==> plan is Err,
    {
        let source = match self.manifest_dir() {
            Ok(dir) => dir,
            Err(e) => {
                return Err(e);
            },
        };
        let sandbox = match self.temp_dir() {
            Ok(dir) => dir,
            Err(e) => {
                return Err(e);
            },
        };
        let wanted = mirror_plan(files);
        let ghost kept = texts(files@).filter(|path: Seq<char>| is_mirrored_path(path));
        let mut copies: Vec<(String, String)> = Vec::new();
        let mut i: usize = 0;
        while i < wanted.len()
            invariant
                i <= wanted@.len(),
                texts(wanted@) == kept,
                self.source() == Some(source@),
                self.sandbox() == Some(sandbox@),
                copies@.len() == i,
                forall|k: int|
                    #![trigger copies@[k]]
                    0 <= k < i ==> copies@[k].0@ == joined(source@, kept[k]) && copies@[k].1@
                        == joined(sandbox@, kept[k]),
            decreases wanted@.len() - i,
        {
            assert(texts(wanted@)[i as int] == wanted@[i as int]@);
            let from = join(source.as_str(), wanted[i].as_str());
            let to = join(sandbox.as_str(), wanted[i].as_str());
            copies.push((from, to));
            i += 1;
        }
        Ok(copies)
    }

    /// The identifier in the mirror that stands for the identifier `uri` of
    /// the project.
    pub fn workspace_to_temp_url(&self, uri: &str) -> (outcome: Result<String, DirectoryError>)
        ensures
            self.sandbox() is None || self.source() is None ==> outcome matches Err(
                DirectoryError::TempDirNotFound,
            ) || outcome matches Err(DirectoryError::ManifestDirNotFound),
            outcome is Ok || !(outcome matches Err(DirectoryError::TempDirNotFound) || outcome matches Err(
                DirectoryError::ManifestDirNotFound,
            )) ==> self.source() is Some && self.sandbox() is Some && is_conversion(
                outcome,
                uri@,
                converted(uri@, self.sandbox()->0, self.source()->0),
            ),
    {
        let sandbox = match self.temp_dir() {
            Ok(dir) => dir,
            Err(e) => {
                return Err(e);
            },
        };
        let source = match self.manifest_dir() {
            Ok(dir) => dir,
            Err(e) => {
                return Err(e);
            },
        };
        convert_url(uri, sandbox.as_str(), source.as_str())
    }

    /// The identifier of the project that stands for the identifier `uri`
    /// in the mirror.
    pub fn temp_to_workspace_url(&self, uri: &str) -> (outcome: Result<String, DirectoryError>)
        ensures
            self.sandbox() is None || self.source() is None ==> outcome matches Err(
                DirectoryError::TempDirNotFound,
            ) || outcome matches Err(DirectoryError::ManifestDirNotFound),
            outcome is Ok || !(outcome matches Err(DirectoryError::TempDirNotFound) || outcome matches Err(
                DirectoryError::ManifestDirNotFound,
            )) ==> self.source() is Some && self.sandbox() is Some && is_conversion(
                outcome,
                uri@,
                converted(uri@, self.source()->0, self.sandbox()->0),
            ),
    {
        let source = match self.manifest_dir() {
            Ok(dir) => dir,
            Err(e) => {
                return Err(e);
            },
        };
        let sandbox = match self.temp_dir() {
            Ok(dir) => dir,
            Err(e) => {
                return Err(e);
            },
        };
        convert_url(uri, source.as_str(), sandbox.as_str())
    }
}

} // verus!
