use vstd::prelude::*;
use vstd::string::*;
use std::sync::Arc;
use dashmap::DashMap;
use crate::documents::Documents;
use crate::errors::{DirectoryError, DocumentError, MakepadAnalyzerError};
use crate::lru_session_cache::LRUSessionCache;
use crate::manifest::{manifest_above, MakepadManifestFile};
use crate::paths::{parent, parent_of};
use crate::session::{
    all_storable, entries_of, is_first_failure, is_stored_upto, preloaded, Session, SessionModel,
};
use crate::sync::{
    converted, is_conversion, is_placement_error, placement, Placement, SyncWorkspace,
};
use crate::uri::{file_path, file_path_of};

verus! {

/// The number of sessions that a manager keeps unless told otherwise.
pub const DEFAULT_SESSION_CACHE_SIZE: usize = 7;

/// The seconds between two sweeps of the cache unless told otherwise.
pub const DEFAULT_AUTO_CLEANUP_INTERVAL: u64 = 3600;

/// The project roots that a map holds, by the identifier of a file.
pub uninterp spec fn roots_held(map: DashMap<String, String>) -> Map<Seq<char>, Seq<char>>;

/// `DashMap::new`: the new map holds nothing.
#[verifier::external_body]
fn roots_new() -> (made: DashMap<String, String>)
    ensures
        (roots_held(made) == Map::<Seq<char>, Seq<char>>::empty()),
{
    DashMap::new()
}

/// `DashMap::get`: a copy of the root held under the identifier, if there
/// is one.
#[verifier::external_body]
fn roots_get(map: &DashMap<String, String>, uri: &str) -> (found: Option<String>)
    ensures
        crate::uri::text_of(found) == if roots_held(*map).contains_key(uri@) {
            Some(roots_held(*map)[uri@])
        } else {
            None
        },
{
    map.get(uri).map(|entry| entry.value().clone())
}

/// `DashMap::insert`: the map then holds the root under the identifier.
#[verifier::external_body]
fn roots_insert(map: &mut DashMap<String, String>, uri: String, root: String)
    ensures
        roots_held(*final(map)) == roots_held(*old(map)).insert(uri@, root@),
{
    let _ = map.insert(uri, root);
}

/// What the manager answers when asked for the session of a file: the
/// session, or what has to be done before it can be given.
pub enum Resolution {
    /// The identifier in the mirror, and the session of the project.
    Ready(String, Arc<Session>),
    /// The root of the project is not known yet: it has to be looked for
    /// upward from this path.
    NeedRoot(String),
    /// The project with this root has no session yet: one has to be set up.
    NeedSession(String),
    /// The request cannot be answered.
    Failed(MakepadAnalyzerError),
}

/// The root of the project that a manifest file belongs to: the directory
/// that holds the file.
pub fn manifest_root(manifest: &MakepadManifestFile) -> (root: Result<String, DirectoryError>)
    ensures
        match parent_of(manifest.location()) {
            Some(dir) => root matches Ok(given) && given@ == dir,
            None => root matches Err(DirectoryError::ManifestDirNotFound),
        },
{
    match parent(manifest.path()) {
        Some(dir) => Ok(dir),
        None => Err(DirectoryError::ManifestDirNotFound),
    }
}

/// Settings from which a manager is made.
pub struct SessionManagerBuilder {
    cache_capacity: usize,
    auto_cleanup_interval: u64,
}

impl SessionManagerBuilder {
    /// The capacity that the cache will have.
    pub closed spec fn capacity(&self) -> usize {
        self.cache_capacity
    }

    /// The seconds that will lie between two sweeps.
    pub closed spec fn interval(&self) -> u64 {
        self.auto_cleanup_interval
    }

    pub fn new() -> (builder: Self)
        ensures
            builder.capacity() == DEFAULT_SESSION_CACHE_SIZE,
            builder.interval() == DEFAULT_AUTO_CLEANUP_INTERVAL,
    {
        SessionManagerBuilder {
            cache_capacity: DEFAULT_SESSION_CACHE_SIZE,
            auto_cleanup_interval: DEFAULT_AUTO_CLEANUP_INTERVAL,
        }
    }

    pub fn with_cache_capacity(self, capacity: usize) -> (builder: Self)
        ensures
            builder.capacity() == capacity,
            builder.interval() == self.interval(),
    {
        SessionManagerBuilder { cache_capacity: capacity, ..self }
    }

    pub fn with_auto_cleanup_interval(self, interval: u64) -> (builder: Self)
        ensures
            builder.capacity() == self.capacity(),
            builder.interval() == interval,
    {
        SessionManagerBuilder { auto_cleanup_interval: interval, ..self }
    }

    pub fn build(self) -> (manager: SessionManager)
        ensures
            manager.wf(),
            manager.sessions()@ == crate::lru_session_cache::empty_cache(self.capacity() as nat),
            manager.open_documents().contents() == Map::<
                Seq<char>,
                crate::document::TextDocument,
            >::empty(),
            manager.roots() == Map::<Seq<char>, Seq<char>>::empty(),
            manager.interval() == self.interval(),
            !manager.stopped(),
    {
        SessionManager {
            cache: LRUSessionCache::new(self.cache_capacity),
            documents: Documents::new(),
            manifest_cache: roots_new(),
            auto_cleanup_interval: self.auto_cleanup_interval,
            stopped: false,
        }
    }
}

/// The sessions of all projects, the documents that are open, and for each
/// file seen the root of its project.
pub struct SessionManager {
    cache: LRUSessionCache,
    documents: Documents,
    manifest_cache: DashMap<String, String>,
    auto_cleanup_interval: u64,
    stopped: bool,
}

impl SessionManager {
    /// The root of the project of each file seen.
    pub closed spec fn roots(&self) -> Map<Seq<char>, Seq<char>> {
        roots_held(self.manifest_cache)
    }

    /// The seconds between two sweeps.
    pub closed spec fn interval(&self) -> u64 {
        self.auto_cleanup_interval
    }

    /// Whether the manager was told to stop.
    pub closed spec fn stopped(&self) -> bool {
        self.stopped
    }

    /// The cache of sessions.
    pub closed spec fn sessions(&self) -> LRUSessionCache {
        self.cache
    }

    /// The table of open documents.
    pub closed spec fn open_documents(&self) -> Documents {
        self.documents
    }

    /// The cache and the documents are well formed.
    pub open spec fn wf(&self) -> bool {
        self.sessions().wf() && self.open_documents().wf()
    }

    pub fn builder() -> (builder: SessionManagerBuilder)
        ensures
            builder.capacity() == DEFAULT_SESSION_CACHE_SIZE,
            builder.interval() == DEFAULT_AUTO_CLEANUP_INTERVAL,
    {
        SessionManagerBuilder::new()
    }

    pub fn cache(&self) -> (cache: &LRUSessionCache)
        ensures
            *cache == self.sessions(),
    {
        &self.cache
    }

    pub fn documents(&self) -> (documents: &Documents)
        ensures
            *documents == self.open_documents(),
    {
        &self.documents
    }

    pub fn auto_cleanup_interval(&self) -> (interval: u64)
        ensures
            interval == self.interval(),
    {
        self.auto_cleanup_interval
    }

    pub fn is_stopped(&self) -> (stopped: bool)
        ensures
            stopped == self.stopped(),
    {
        self.stopped
    }

    /// Tells the manager to stop. To stop it twice is to stop it once.
    pub fn stop(&mut self)
        ensures
            final(self).stopped(),
            final(self).sessions() == old(self).sessions(),
            final(self).open_documents() == old(self).open_documents(),
            final(self).roots() == old(self).roots(),
            final(self).interval() == old(self).interval(),
    {
        self.stopped = true;
    }

    /// What the sweeping task does when its interval has passed: a manager
    /// that was stopped is left alone and the task ends; any other has its
    /// cache swept and the task goes on.
    pub fn auto_cleanup_sessions(&mut self) -> (go_on: bool)
        requires
            old(self).wf(),
        ensures
            final(self).wf(),
            go_on == !old(self).stopped(),
            final(self).stopped() == old(self).stopped(),
            final(self).open_documents() == old(self).open_documents(),
            final(self).roots() == old(self).roots(),
            final(self).sessions()@ == if old(self).stopped() {
                old(self).sessions()@
            } else {
                old(self).sessions()@.swept()
            },
    {
        if self.stopped {
            false
        } else {
            self.cache.cleanup_sessions();
            true
        }
    }

    /// The root of the project that the file `uri` belongs to. A root that
    /// was found for `uri` before is handed back as it was noted; otherwise
    /// the root is found by walking upward from `path`, where `existing`
    /// lists the files that exist, and noted for `uri`.
    pub fn remember_root(&mut self, uri: &str, path: &str, existing: &Vec<String>) -> (root: Result<
        String,
        MakepadAnalyzerError,
    >)
        requires
            old(self).wf(),
        ensures
            final(self).wf(),
            final(self).sessions() == old(self).sessions(),
            final(self).open_documents() == old(self).open_documents(),
            final(self).stopped() == old(self).stopped(),
            old(self).roots().contains_key(uri@) ==> {
                &&& root matches Ok(given)
                &&& given@ == old(self).roots()[uri@]
                &&& final(self).roots() == old(self).roots()
            },
            !old(self).roots().contains_key(uri@) ==> match manifest_above(path@, existing@) {
                None => {
                    &&& root matches Err(
                        MakepadAnalyzerError::DocumentError(
                            DocumentError::ManifestFileNotFound { dir },
                        ),
                    )
                    &&& dir@ == path@
                    &&& final(self).roots() == old(self).roots()
                },
                Some(location) => match parent_of(location) {
                    None => {
                        &&& root matches Err(
                            MakepadAnalyzerError::DirectoryError(
                                DirectoryError::ManifestDirNotFound,
                            ),
                        )
                        &&& final(self).roots() == old(self).roots()
                    },
                    Some(dir) => {
                        &&& root matches Ok(given)
                        &&& given@ == dir
                        &&& final(self).roots() == old(self).roots().insert(uri@, dir)
                    },
                },
            },
    {
        if let Some(known) = roots_get(&self.manifest_cache, uri) {
            return Ok(known);
        }
        let manifest = match MakepadManifestFile::from_dir(path, existing) {
            Ok(manifest) => manifest,
            Err(e) => {
                return Err(e);
            },
        };
        let dir = match manifest_root(&manifest) {
            Ok(dir) => dir,
            Err(e) => {
                return Err(MakepadAnalyzerError::DirectoryError(e));
            },
        };
        roots_insert(&mut self.manifest_cache, uri.to_owned(), dir.clone());
        Ok(dir)
    }

    /// The session of the project with root `root`, if there is one. It
    /// becomes the most recently touched.
    pub fn session_of_root(&mut self, root: &str) -> (found: Option<Arc<Session>>)
        requires
            old(self).wf(),
        ensures
            final(self).wf(),
            final(self).sessions()@ == old(self).sessions()@.touched(root@),
            final(self).open_documents() == old(self).open_documents(),
            final(self).roots() == old(self).roots(),
            final(self).stopped() == old(self).stopped(),
            found == if old(self).sessions()@.entries.contains_key(root@) {
                Some(old(self).sessions()@.entries[root@])
            } else {
                None
            },
    {
        self.cache.get(root)
    }

    /// Answers a request for the session of the file `workspace_uri`: with
    /// the session and the identifier in the mirror, or with what has to be
    /// done first. A root that is not known is asked for; so is a session
    /// that is not there. Nothing but the order of the cache changes.
    pub fn uri_and_session_from_workspace(&mut self, workspace_uri: &str) -> (answer: Resolution)
        requires
            old(self).wf(),
        ensures
            final(self).wf(),
            final(self).open_documents() == old(self).open_documents(),
            final(self).roots() == old(self).roots(),
            final(self).stopped() == old(self).stopped(),
            final(self).sessions()@.entries == old(self).sessions()@.entries,
            !old(self).roots().contains_key(workspace_uri@) ==> {
                &&& final(self).sessions() == old(self).sessions()
                &&& match file_path_of(workspace_uri@) {
                    Some(path) => answer matches Resolution::NeedRoot(given) && given@ == path,
                    None => answer matches Resolution::Failed(
                        MakepadAnalyzerError::DirectoryError(
                            DirectoryError::PathFromUrlFailed { url },
                        ),
                    ) && url@ == workspace_uri@,
                }
            },
            old(self).roots().contains_key(workspace_uri@) ==> {
                let root = old(self).roots()[workspace_uri@];
                &&& final(self).sessions()@ == old(self).sessions()@.touched(root)
                &&& !old(self).sessions()@.entries.contains_key(root) ==> (
                answer matches Resolution::NeedSession(given) && given@ == root)
                &&& old(self).sessions()@.entries.contains_key(root) ==> {
                    let session = old(self).sessions()@.entries[root];
                    &&& answer matches Resolution::Ready(_, given) ==> given == session
                    &&& answer is Ready || answer is Failed
                    &&& session@.source is None || session@.sandbox is None
                        ==> Self::tells_unset(answer)
                    &&& session@.source is Some && session@.sandbox is Some ==> Self::answers(
                        answer,
                        workspace_uri@,
                        session@.sandbox->0,
                        session@.source->0,
                    ) || Self::tells_unset(answer)
                }
            },
    {
        let root = match roots_get(&self.manifest_cache, workspace_uri) {
            Some(root) => root,
            None => {
                return match file_path(workspace_uri) {
                    Some(path) => Resolution::NeedRoot(path),
                    None => Resolution::Failed(
                        MakepadAnalyzerError::DirectoryError(
                            DirectoryError::PathFromUrlFailed { url: workspace_uri.to_owned() },
                        ),
                    ),
                };
            },
        };
        proof {
            crate::lru_session_cache::lemma_wf_kept(self.cache@, root@, arbitrary());
        }
        let session = match self.cache.get(root.as_str()) {
            Some(session) => session,
            None => {
                return Resolution::NeedSession(root);
            },
        };
        match session.sync().workspace_to_temp_url(workspace_uri) {
            Ok(uri) => Resolution::Ready(uri, session),
            Err(e) => Resolution::Failed(MakepadAnalyzerError::DirectoryError(e)),
        }
    }

    /// Whether `answer` tells that a directory of the session is not set,
    /// or could not be read.
    pub open spec fn tells_unset(answer: Resolution) -> bool {
        answer == Resolution::Failed(
            MakepadAnalyzerError::DirectoryError(DirectoryError::TempDirNotFound),
        ) || answer == Resolution::Failed(
            MakepadAnalyzerError::DirectoryError(DirectoryError::ManifestDirNotFound),
        )
    }

    /// Whether `answer` is what the rewriting of `uri` from under `source`
    /// to under `sandbox` gives.
    pub open spec fn answers(
        answer: Resolution,
        uri: Seq<char>,
        sandbox: Seq<char>,
        source: Seq<char>,
    ) -> bool {
        match answer {
            Resolution::Ready(given, _) => is_conversion(
                Ok(given),
                uri,
                converted(uri, sandbox, source),
            ),
            Resolution::Failed(MakepadAnalyzerError::DirectoryError(e)) => is_conversion(
                Err(e),
                uri,
                converted(uri, sandbox, source),
            ),
            _ => false,
        }
    }

    /// Takes note of a file that was opened; see `Documents::handle_open_file`.
    pub fn handle_open_file(&mut self, path: &str, read: Result<String, DocumentError>)
        requires
            old(self).wf(),
        ensures
            final(self).wf(),
            final(self).sessions() == old(self).sessions(),
            final(self).roots() == old(self).roots(),
            final(self).stopped() == old(self).stopped(),
            old(self).open_documents().contents().contains_key(path@) || read is Err ==> final(self).open_documents().contents() == old(self).open_documents().contents(),
            !old(self).open_documents().contents().contains_key(path@) && read is Ok ==> final(self).open_documents().contents().dom() == old(self).open_documents().contents().dom().insert(
                path@,
            ) && final(self).open_documents().contents()[path@]@ == (
            crate::document::DocumentModel { uri: path@, version: 1, text: read->Ok_0@ }),
    {
        self.documents.handle_open_file(path, read);
    }

    /// Applies `changes` in order to the open document under `path` and
    /// hands back the text that is then to be written to the file. The
    /// changes before the first refused one stay applied, and that one is
    /// reported; where no document is found, nothing changes.
    pub fn write_changes_to_file(
        &mut self,
        path: &str,
        changes: &Vec<crate::document::ContentChange>,
    ) -> (outcome: Result<String, MakepadAnalyzerError>)
        requires
            old(self).wf(),
            old(self).open_documents().contents().contains_key(path@) ==> old(self).open_documents().contents()[path@]@.version + changes@.len() <= i32::MAX,
        ensures
            final(self).wf(),
            final(self).sessions() == old(self).sessions(),
            final(self).roots() == old(self).roots(),
            final(self).stopped() == old(self).stopped(),
            crate::documents::is_written(
                old(self).open_documents().contents(),
                final(self).open_documents().contents(),
                path@,
                changes@,
                outcome,
            ),
    {
        self.documents.write_changes_to_file(path, changes)
    }

    /// Takes a document that was closed out of the table.
    pub fn remove_document(&mut self, path: &str) -> (outcome: Result<
        crate::document::TextDocument,
        DocumentError,
    >)
        requires
            old(self).wf(),
        ensures
            final(self).wf(),
            final(self).sessions() == old(self).sessions(),
            final(self).roots() == old(self).roots(),
            final(self).stopped() == old(self).stopped(),
            final(self).open_documents().contents() == old(self).open_documents().contents().remove(
                path@,
            ),
            old(self).open_documents().contents().contains_key(path@) ==> (outcome matches Ok(doc)
                && doc == old(self).open_documents().contents()[path@]),
            !old(self).open_documents().contents().contains_key(path@) ==> (outcome matches Err(
                DocumentError::DocumentNotFound { path: missing },
            ) && missing@ == path@),
    {
        self.documents.remove_document(path)
    }

    /// Stores a document for each file of a mirror that was read; see
    /// `Session::store_project_files`.
    pub fn store_project_files(&mut self, loaded: Vec<(String, Result<String, DocumentError>)>) -> (done:
        Result<(), MakepadAnalyzerError>)
        requires
            old(self).wf(),
        ensures
            final(self).wf(),
            final(self).sessions() == old(self).sessions(),
            final(self).roots() == old(self).roots(),
            final(self).stopped() == old(self).stopped(),
            done is Ok <==> all_storable(
                old(self).open_documents().contents().dom(),
                entries_of(loaded@),
            ),
            done is Ok ==> is_stored_upto(
                old(self).open_documents().contents(),
                final(self).open_documents().contents(),
                entries_of(loaded@),
                loaded@.len() as int,
            ),
            done matches Err(e) ==> exists|k: int|
                is_first_failure(
                    old(self).open_documents().contents(),
                    final(self).open_documents().contents(),
                    entries_of(loaded@),
                    k,
                    e,
                ),
    {
        let done = Session::store_project_files(&mut self.documents, loaded);
        proof {
            if done is Err {
                let e = done->Err_0;
                let k = choose|k: int|
                    is_first_failure(
                        old(self).documents.contents(),
                        self.documents.contents(),
                        entries_of(loaded@),
                        k,
                        e,
                    );
                assert(is_first_failure(
                    old(self).open_documents().contents(),
                    self.open_documents().contents(),
                    entries_of(loaded@),
                    k,
                    e,
                ));
            }
        }
        done
    }

    /// Marks the session of the project with root `root` as no longer in
    /// use; see `LRUSessionCache::mark_session_inactived`.
    pub fn mark_session_inactived(&mut self, root: &str)
        requires
            old(self).wf(),
        ensures
            final(self).wf(),
            final(self).open_documents() == old(self).open_documents(),
            final(self).roots() == old(self).roots(),
            final(self).stopped() == old(self).stopped(),
            final(self).sessions()@.recency == old(self).sessions()@.recency,
            final(self).sessions()@.entries.dom() == old(self).sessions()@.entries.dom(),
            old(self).sessions()@.entries.contains_key(root@) ==> !final(self).sessions()@.entries[root@]@.active,
    {
        self.cache.mark_session_inactived(root);
    }

    /// The session of the project that `start` belongs to is made sure of,
    /// and the project's directory is handed back. Where the cache holds a
    /// session for that directory, it is touched and nothing else changes.
    /// Otherwise a session is set up and taken into the cache under the
    /// directory; see `Session::init`. A session that could not be set up
    /// is not taken in.
    pub fn open_session(
        &mut self,
        start: &str,
        existing: &Vec<String>,
        temp_root: &str,
        files: Vec<(String, Result<String, DocumentError>)>,
    ) -> (opened: Result<String, MakepadAnalyzerError>)
        requires
            old(self).wf(),
        ensures
            final(self).wf(),
            final(self).roots() == old(self).roots(),
            final(self).stopped() == old(self).stopped(),
            opened is Err ==> final(self).sessions()@ == old(self).sessions()@,
            match placement(start@, existing@, temp_root@) {
                Placement::Placed { source, sandbox } => if old(self).sessions()@.entries.contains_key(
                    source,
                ) {
                    &&& opened matches Ok(root) && root@ == source
                    &&& final(self).sessions()@ == old(self).sessions()@.touched(source)
                    &&& final(self).open_documents().contents() == old(self).open_documents().contents()
                } else {
                    let loaded = preloaded(entries_of(files@), sandbox);
                    &&& opened is Ok <==> all_storable(
                        old(self).open_documents().contents().dom(),
                        loaded,
                    )
                    &&& opened matches Ok(root) ==> {
                        &&& root@ == source
                        &&& final(self).sessions()@.entries.contains_key(source)
                        &&& final(self).sessions()@.entries[source]@ == (SessionModel {
                            active: true,
                            source: Some(source),
                            sandbox: Some(sandbox),
                        })
                        &&& final(self).sessions()@ == old(self).sessions()@.inserted(
                            source,
                            final(self).sessions()@.entries[source],
                        )
                        &&& is_stored_upto(
                            old(self).open_documents().contents(),
                            final(self).open_documents().contents(),
                            loaded,
                            loaded.len() as int,
                        )
                    }
                    &&& opened matches Err(e) ==> exists|k: int|
                        is_first_failure(
                            old(self).open_documents().contents(),
                            final(self).open_documents().contents(),
                            loaded,
                            k,
                            e,
                        )
                },
                other => {
                    &&& final(self).open_documents().contents() == old(self).open_documents().contents()
                    &&& opened matches Err(e) && is_placement_error(e, start@, other)
                },
            },
    {
        let (source, sandbox) = match SyncWorkspace::locate(start, existing, temp_root) {
            Ok(found) => found,
            Err(e) => {
                return Err(e);
            },
        };
        if self.cache.get(source.as_str()).is_some() {
            return Ok(source);
        }
        let mut session = Session::new();
        let ghost before = self.documents.contents();
        match session.init(start, existing, temp_root, files, &mut self.documents) {
            Ok(root) => {
                self.cache.insert(root, Arc::new(session));
                Ok(source)
            },
            Err(e) => {
                proof {
                    let loaded = preloaded(entries_of(files@), sandbox@);
                    let k = choose|k: int|
                        is_first_failure(before, self.documents.contents(), loaded, k, e);
                    assert(is_first_failure(
                        old(self).open_documents().contents(),
                        self.open_documents().contents(),
                        loaded,
                        k,
                        e,
                    ));
                }
                Err(e)
            },
        }
    }

    /// Takes in the session that was set up for the project with root
    /// `root`.
    pub fn adopt_session(&mut self, root: String, session: Arc<Session>)
        requires
            old(self).wf(),
        ensures
            final(self).wf(),
            final(self).sessions()@ == old(self).sessions()@.inserted(root@, session),
            final(self).open_documents() == old(self).open_documents(),
            final(self).roots() == old(self).roots(),
            final(self).stopped() == old(self).stopped(),
    {
        self.cache.insert(root, session);
    }
}

} // verus!
