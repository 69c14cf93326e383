use vstd::prelude::*;
use vstd::string::*;
use crate::completion::{CompletionItem, CompletionItemKind};
use crate::document::Position;
use crate::documents::Documents;
use crate::document::{DocumentModel, TextDocument};
use crate::errors::{DirectoryError, DocumentError, MakepadAnalyzerError};
use crate::paths::{ends_with, file_name, file_name_of, has_suffix, join, joined};
use crate::sync::{
    is_mirrored_file, is_mirrored_path, is_placement_error, placement, texts, Placement,
    SyncWorkspace,
};

verus! {

/// What a session is, apart from how it is stored: whether it is still in
/// use, and the two directories of its project, once set.
pub struct SessionModel {
    pub active: bool,
    pub source: Option<Seq<char>>,
    pub sandbox: Option<Seq<char>>,
}

/// The handle of one project: a flag that tells whether it is still in use,
/// and the directories of the project and of its mirror.
pub struct Session {
    is_active: bool,
    sync: SyncWorkspace,
}

impl View for Session {
    type V = SessionModel;

    closed spec fn view(&self) -> SessionModel {
        SessionModel {
            active: self.is_active,
            source: self.sync.source(),
            sandbox: self.sync.sandbox(),
        }
    }
}

impl Clone for Session {
    fn clone(&self) -> (copy: Self)
        ensures
            copy@ == self@,
    {
        Session { is_active: self.is_active, sync: self.sync.clone() }
    }
}

/// Whether `path` names a source file: a file whose name has the extension
/// `rs`.
pub open spec fn is_rust_path(path: Seq<char>) -> bool {
    file_name_of(path) matches Some(name) && ends_with(name, ".rs"@) && name.len() > 3
}

/// Whether the entry at `path` is a source file, given whether it is a file
/// at all.
pub fn is_rust_file(path: &str, is_file: bool) -> (r: bool)
    ensures
        r == (is_file && is_rust_path(path@)),
{
    if !is_file {
        return false;
    }
    match file_name(path) {
        Some(name) => {
            proof {
                reveal_strlit(".rs");
            }
            has_suffix(name.as_str(), ".rs") && name.as_str().unicode_len() > 3
        },
        None => false,
    }
}

/// Whether an entry of a directory tree, given with whether it is a file,
/// is a file that the mirror takes: a source file, the manifest, or the
/// lock file.
pub open spec fn is_source_entry() -> spec_fn((String, bool)) -> bool {
    |entry: (String, bool)| entry.1 && is_mirrored_path(entry.0@)
}

/// The path of an entry of a directory tree.
pub open spec fn entry_path() -> spec_fn((String, bool)) -> Seq<char> {
    |entry: (String, bool)| entry.0@
}

/// Of the entries found in a directory tree, each given with whether it is
/// a file, the paths of the files that the mirror takes, in the order
/// given.
pub fn get_project_files(entries: &Vec<(String, bool)>) -> (files: Vec<String>)
    ensures
        texts(files@) == entries@.filter(is_source_entry()).map_values(entry_path()),
{
    let ghost view = |text: String| text@;
    let mut files: Vec<String> = Vec::new();
    let mut i: usize = 0;
    proof {
        reveal(Seq::filter);
        assert(entries@.take(0) =~= Seq::<(String, bool)>::empty());
        assert(texts(files@) =~= entries@.take(0).filter(is_source_entry()).map_values(
            entry_path(),
        ));
    }
    while i < entries.len()
        invariant
            i <= entries@.len(),
            view == |text: String| text@,
            texts(files@) == entries@.take(i as int).filter(is_source_entry()).map_values(
                entry_path(),
            ),
        decreases entries@.len() - i,
    {
        let ghost seen = entries@.take(i as int);
        proof {
            assert(entries@.take(i + 1) =~= seen.push(entries@[i as int]));
            seen.lemma_filter_push(entries@[i as int], is_source_entry());
        }
        if entries[i].1 && is_mirrored_file(entries[i].0.as_str()) {
            proof {
                files@.lemma_push_map_commute(view, entries@[i as int].0);
                seen.filter(is_source_entry()).lemma_push_map_commute(
                    entry_path(),
                    entries@[i as int],
                );
            }
            files.push(entries[i].0.clone());
            assert(texts(files@) =~= entries@.take(i + 1).filter(is_source_entry()).map_values(
                entry_path(),
            ));
        }
        i += 1;
    }
    assert(entries@.take(entries@.len() as int) =~= entries@);
    files
}

impl Session {
    /// A fresh session: in use, with no directories set.
    pub fn new() -> (session: Self)
        ensures
            session@ == (SessionModel { active: true, source: None, sandbox: None }),
    {
        Session { is_active: true, sync: SyncWorkspace::new() }
    }

    /// Marks the session as no longer in use.
    pub fn mark_inactived(&mut self)
        ensures
            final(self)@ == (SessionModel { active: false, ..old(self)@ }),
    {
        self.is_active = false;
    }

    pub fn is_active(&self) -> (active: bool)
        ensures
            active == self@.active,
    {
        self.is_active
    }

    /// The directories of the session.
    pub fn sync(&self) -> (sync: &SyncWorkspace)
        ensures
            sync.source() == self@.source,
            sync.sandbox() == self@.sandbox,
    {
        &self.sync
    }

    /// Of the files of a project that were read, each given by its path
    /// below the project's directory, those that the mirror takes, each
    /// under the path that it has in the mirror at `sandbox`.
    pub fn mirrored_files(
        files: Vec<(String, Result<String, DocumentError>)>,
        sandbox: &str,
    ) -> (loaded: Vec<(String, Result<String, DocumentError>)>)
        ensures
            entries_of(loaded@) == preloaded(entries_of(files@), sandbox@),
    {
        let ghost all = entries_of(files@);
        let ghost wanted = is_mirrored_entry();
        let ghost moved = moved_under(sandbox@);
        let mut entries = files;
        let mut loaded: Vec<(String, Result<String, DocumentError>)> = Vec::new();
        let mut i: usize = 0;
        let count = entries.len();
        proof {
            reveal(Seq::filter);
            assert(all.take(0) =~= Seq::<(Seq<char>, Result<String, DocumentError>)>::empty());
            assert(entries_of(loaded@) =~= all.take(0).filter(wanted).map_values(moved));
        }
        while i < count
            invariant
                i <= count,
                count == all.len(),
                entries@.len() == all.len(),
                all == entries_of(files@),
                wanted == is_mirrored_entry(),
                moved == moved_under(sandbox@),
                forall|k: int| i <= k < count ==> (#[trigger] entries@[k]).1 == all[k].1,
                forall|k: int| 0 <= k < count ==> (#[trigger] entries@[k]).0@ == all[k].0,
                entries_of(loaded@) == all.take(i as int).filter(wanted).map_values(moved),
            decreases count - i,
        {
            let ghost seen = all.take(i as int);
            proof {
                assert(all.take(i + 1) =~= seen.push(all[i as int]));
                seen.lemma_filter_push(all[i as int], wanted);
            }
            if is_mirrored_file(entries[i].0.as_str()) {
                let mut taken: Result<String, DocumentError> = Err(
                    DocumentError::InvalidPath { path: String::new() },
                );
                std::mem::swap(&mut entries[i].1, &mut taken);
                let path = join(sandbox, entries[i].0.as_str());
                proof {
                    seen.filter(wanted).lemma_push_map_commute(moved, all[i as int]);
                    assert(entries_of(loaded@.push((path, taken))) =~= entries_of(loaded@).push(
                        (path@, taken),
                    ));
                }
                loaded.push((path, taken));
            }
            i += 1;
        }
        assert(all.take(all.len() as int) =~= all);
        loaded
    }

    /// Sets the session up for the project that `start` belongs to, where
    /// `existing` lists the files that exist and `files` holds what reading
    /// the project's files gave, each under its path below the project's
    /// directory. The mirror is placed below the fresh directory
    /// `temp_root`, and each file that the mirror takes is stored as a
    /// document under its path in the mirror, at version 1, with the text
    /// read. The project's directory is handed back. Where the project
    /// cannot be placed, nothing changes.
    pub fn init(
        &mut self,
        start: &str,
        existing: &Vec<String>,
        temp_root: &str,
        files: Vec<(String, Result<String, DocumentError>)>,
        documents: &mut Documents,
    ) -> (project: Result<String, MakepadAnalyzerError>)
        requires
            old(documents).wf(),
        ensures
            final(documents).wf(),
            final(self)@.active == old(self)@.active,
            match placement(start@, existing@, temp_root@) {
                Placement::Placed { source, sandbox } => {
                    let loaded = preloaded(entries_of(files@), sandbox);
                    &&& final(self)@.source == Some(source)
                    &&& final(self)@.sandbox == Some(sandbox)
                    &&& project is Ok <==> all_storable(old(documents).contents().dom(), loaded)
                    &&& project matches Ok(dir) ==> dir@ == source && is_stored_upto(
                        old(documents).contents(),
                        final(documents).contents(),
                        loaded,
                        loaded.len() as int,
                    )
                    &&& project matches Err(e) ==> exists|k: int|
                        is_first_failure(
                            old(documents).contents(),
                            final(documents).contents(),
                            loaded,
                            k,
                            e,
                        )
                },
                other => {
                    &&& final(self)@ == old(self)@
                    &&& final(documents).contents() == old(documents).contents()
                    &&& project matches Err(e) && is_placement_error(e, start@, other)
                },
            },
    {
        let (source, sandbox) = match SyncWorkspace::locate(start, existing, temp_root) {
            Ok(found) => found,
            Err(e) => {
                return Err(e);
            },
        };
        let loaded = Self::mirrored_files(files, sandbox.as_str());
        let project = source.clone();
        self.sync.place(source, sandbox);
        match Self::store_project_files(documents, loaded) {
            Ok(()) => Ok(project),
            Err(e) => Err(e),
        }
    }

    /// The place at which the token starts that the trigger `trigger_char`
    /// ended: as many bytes as the trigger has, and one more, before
    /// `position`. There is none where the line does not reach that far
    /// back.
    pub fn shifted_position(position: Position, trigger_char: &str) -> (shifted: Option<Position>)
        ensures
            shifted == if position.character >= trigger_char.spec_bytes().len() + 1 {
                Some(
                    Position {
                        line: position.line,
                        character: (position.character - trigger_char.spec_bytes().len()
                            - 1) as u32,
                    },
                )
            } else {
                None
            },
    {
        let len = trigger_char.as_bytes().len();
        if len < u32::MAX as usize && position.character >= len as u32 + 1 {
            Some(Position { line: position.line, character: position.character - len as u32 - 1 })
        } else {
            None
        }
    }

    /// The proposals of the session for a place in a file: two fixed
    /// keywords, whatever the place.
    pub fn completion_items(&self, uri: &str, position: Position, trigger_char: &str) -> (items:
        Option<Vec<CompletionItem>>)
        ensures
            items is Some,
            items->0@.len() == 2,
            items->0@[0].label@ == "Hello"@,
            items->0@[1].label@ == "World"@,
            items->0@[0].detail is Some && items->0@[0].detail->0@ == "Hello"@,
            items->0@[1].detail is Some && items->0@[1].detail->0@ == "World"@,
            items->0@[0].kind == Some(CompletionItemKind::Keyword),
            items->0@[1].kind == Some(CompletionItemKind::Keyword),
    {
        let mut found: Vec<CompletionItem> = Vec::new();
        found.push(
            CompletionItem {
                label: "Hello".to_owned(),
                kind: Some(CompletionItemKind::Keyword),
                detail: Some("Hello".to_owned()),
                documentation: None,
                insert_text: None,
                insert_text_format: None,
            },
        );
        found.push(
            CompletionItem {
                label: "World".to_owned(),
                kind: Some(CompletionItemKind::Keyword),
                detail: Some("World".to_owned()),
                documentation: None,
                insert_text: None,
                insert_text_format: None,
            },
        );
        Some(found)
    }

    /// Stores a document for each file that was read, in order, and stops
    /// at the first file that could not be read or is stored already. Each
    /// document stored is at version 1, under the file's path, with the
    /// text read; what the table held before stays as it was.
    pub fn store_project_files(
        documents: &mut Documents,
        loaded: Vec<(String, Result<String, DocumentError>)>,
    ) -> (done: Result<(), MakepadAnalyzerError>)
        requires
            old(documents).wf(),
        ensures
            final(documents).wf(),
            done is Ok <==> all_storable(old(documents).contents().dom(), entries_of(loaded@)),
            done is Ok ==> is_stored_upto(
                old(documents).contents(),
                final(documents).contents(),
                entries_of(loaded@),
                loaded@.len() as int,
            ),
            done matches Err(e) ==> exists|k: int|
                is_first_failure(
                    old(documents).contents(),
                    final(documents).contents(),
                    entries_of(loaded@),
                    k,
                    e,
                ),
    {
        let ghost all = entries_of(loaded@);
        let ghost first = documents.contents();
        let ghost held = documents.contents().dom();
        let mut entries = loaded;
        let mut i: usize = 0;
        let count = entries.len();
        while i < count
            invariant
                i <= count,
                count == all.len(),
                entries@.len() == all.len(),
                all == entries_of(loaded@),
                first == old(documents).contents(),
                held == first.dom(),
                forall|k: int| i <= k < count ==> (#[trigger] entries@[k]).1 == all[k].1,
                forall|k: int| 0 <= k < count ==> (#[trigger] entries@[k]).0@ == all[k].0,
                documents.wf(),
                forall|k: int| 0 <= k < i ==> storable(held, all, k),
                is_stored_upto(first, documents.contents(), all, i as int),
            decreases count - i,
        {
            let mut taken: Result<String, DocumentError> = Err(
                DocumentError::InvalidPath { path: String::new() },
            );
            std::mem::swap(&mut entries[i].1, &mut taken);
            assert(taken == all[i as int].1);
            let ghost before = documents.contents();
            let ghost path = all[i as int].0;
            let content = match taken {
                Ok(content) => content,
                Err(e) => {
                    assert(!storable(held, all, i as int));
                    assert(is_first_failure(
                        first,
                        before,
                        all,
                        i as int,
                        MakepadAnalyzerError::DocumentError(e),
                    ));
                    return Err(MakepadAnalyzerError::DocumentError(e));
                },
            };
            let doc = TextDocument::new(entries[i].0.as_str(), content);
            match documents.store_document(doc) {
                Ok(()) => {},
                Err(e) => {
                    proof {
                        assert(before.contains_key(path));
                        if !held.contains(path) {
                            assert(is_path_before(all, i as int, path));
                            let k = choose|k: int| 0 <= k < i && (#[trigger] all[k]).0 == path;
                            assert(all[k].0 == all[i as int].0);
                        }
                        assert(!storable(held, all, i as int));
                        assert(is_first_failure(
                            first,
                            before,
                            all,
                            i as int,
                            MakepadAnalyzerError::DocumentError(e),
                        ));
                    }
                    return Err(MakepadAnalyzerError::DocumentError(e));
                },
            }
            proof {
                let after = documents.contents();
                assert(!before.contains_key(path));
                assert(storable(held, all, i as int)) by {
                    assert forall|j: int| 0 <= j < i implies (#[trigger] all[j]).0 != path by {
                        if all[j].0 == path {
                            assert(is_path_before(all, i as int, path));
                            assert(before.contains_key(path));
                        }
                    }
                }
                assert forall|p: Seq<char>| #[trigger]
                    after.contains_key(p) <==> first.contains_key(p) || is_path_before(
                        all,
                        i + 1,
                        p,
                    ) by {
                    assert(before.contains_key(p) <==> first.contains_key(p) || is_path_before(
                        all,
                        i as int,
                        p,
                    ));
                    if is_path_before(all, i as int, p) {
                        let k = choose|k: int| 0 <= k < i && (#[trigger] all[k]).0 == p;
                        assert(0 <= k < i + 1 && all[k].0 == p);
                    }
                    if p == path {
                        assert(all[i as int].0 == p);
                    }
                    if is_path_before(all, i + 1, p) {
                        let k = choose|k: int| 0 <= k < i + 1 && (#[trigger] all[k]).0 == p;
                        if k < i {
                            assert(is_path_before(all, i as int, p));
                        }
                    }
                }
                assert forall|p: Seq<char>| #[trigger] first.contains_key(p) implies after[p]
                    == first[p] by {
                    assert(before.contains_key(p));
                }
                assert forall|k: int| 0 <= k < i + 1 implies is_stored_entry(
                    after,
                    #[trigger] all[k],
                ) by {
                    if k < i {
                        assert(is_stored_entry(before, all[k]));
                        assert(all[k].0 != path);
                    }
                }
                assert(is_stored_upto(first, after, all, i + 1));
            }
            i += 1;
        }
        Ok(())
    }
}

/// What was read, as plain values: each path with what reading it gave.
pub open spec fn entries_of(loaded: Seq<(String, Result<String, DocumentError>)>) -> Seq<
    (Seq<char>, Result<String, DocumentError>),
> {
    loaded.map_values(|entry: (String, Result<String, DocumentError>)| (entry.0@, entry.1))
}

/// Whether a file that was read is one that the mirror takes.
pub open spec fn is_mirrored_entry() -> spec_fn((Seq<char>, Result<String, DocumentError>)) -> bool {
    |entry: (Seq<char>, Result<String, DocumentError>)| is_mirrored_path(entry.0)
}

/// A file that was read, under the path that it has below `sandbox`.
pub open spec fn moved_under(sandbox: Seq<char>) -> spec_fn(
    (Seq<char>, Result<String, DocumentError>),
) -> (Seq<char>, Result<String, DocumentError>) {
    |entry: (Seq<char>, Result<String, DocumentError>)| (joined(sandbox, entry.0), entry.1)
}

/// Of the files of a project that were read, those that the mirror takes,
/// in the order given, each under its path in the mirror at `sandbox`.
pub open spec fn preloaded(
    files: Seq<(Seq<char>, Result<String, DocumentError>)>,
    sandbox: Seq<char>,
) -> Seq<(Seq<char>, Result<String, DocumentError>)> {
    files.filter(is_mirrored_entry()).map_values(moved_under(sandbox))
}

/// Whether `path` is the path of one of the first `n` entries.
pub open spec fn is_path_before(
    loaded: Seq<(Seq<char>, Result<String, DocumentError>)>,
    n: int,
    path: Seq<char>,
) -> bool {
    exists|k: int| 0 <= k < n && (#[trigger] loaded[k]).0 == path
}

/// Whether entry `k` of what was read can be stored: it was read, and its
/// path is neither held already nor that of an earlier entry.
pub open spec fn storable(
    held: Set<Seq<char>>,
    loaded: Seq<(Seq<char>, Result<String, DocumentError>)>,
    k: int,
) -> bool {
    &&& loaded[k].1 is Ok
    &&& !held.contains(loaded[k].0)
    &&& forall|j: int| 0 <= j < k ==> (#[trigger] loaded[j]).0 != loaded[k].0
}

/// Whether every entry of what was read can be stored.
pub open spec fn all_storable(
    held: Set<Seq<char>>,
    loaded: Seq<(Seq<char>, Result<String, DocumentError>)>,
) -> bool {
    forall|k: int| 0 <= k < loaded.len() ==> storable(held, loaded, k)
}

/// Whether `error` tells why `entry` could not be stored: with the error
/// that reading it gave, or as stored already.
pub open spec fn is_store_failure(
    error: MakepadAnalyzerError,
    entry: (Seq<char>, Result<String, DocumentError>),
) -> bool {
    match entry.1 {
        Err(e) => error == MakepadAnalyzerError::DocumentError(e),
        Ok(_) => error matches MakepadAnalyzerError::DocumentError(
            DocumentError::DocumentAlreadyStored { path },
        ) && path@ == entry.0,
    }
}

/// Whether `table` holds the document of a file that was read: under the
/// file's path, at version 1, with the text read.
pub open spec fn is_stored_entry(
    table: Map<Seq<char>, TextDocument>,
    entry: (Seq<char>, Result<String, DocumentError>),
) -> bool {
    &&& entry.1 is Ok
    &&& table.contains_key(entry.0)
    &&& table[entry.0]@ == (DocumentModel { uri: entry.0, version: 1, text: entry.1->Ok_0@ })
}

/// Whether `after` is `before` with the documents of the first `n` entries
/// added: it holds what `before` held, unchanged, and one document for each
/// of those entries, and nothing else.
pub open spec fn is_stored_upto(
    before: Map<Seq<char>, TextDocument>,
    after: Map<Seq<char>, TextDocument>,
    loaded: Seq<(Seq<char>, Result<String, DocumentError>)>,
    n: int,
) -> bool {
    &&& forall|path: Seq<char>| #[trigger]
        after.contains_key(path) <==> before.contains_key(path) || is_path_before(
            loaded,
            n,
            path,
        )
    &&& forall|path: Seq<char>| #[trigger] before.contains_key(path) ==> after[path] == before[path]
    &&& forall|k: int| 0 <= k < n ==> is_stored_entry(after, #[trigger] loaded[k])
}

/// Whether storing stopped at entry `k` with `error`: the entries before it
/// were stored, it is the first that could not be, and `error` tells why.
pub open spec fn is_first_failure(
    before: Map<Seq<char>, TextDocument>,
    after: Map<Seq<char>, TextDocument>,
    loaded: Seq<(Seq<char>, Result<String, DocumentError>)>,
    k: int,
    error: MakepadAnalyzerError,
) -> bool {
    &&& 0 <= k < loaded.len()
    &&& !storable(before.dom(), loaded, k)
    &&& forall|j: int| 0 <= j < k ==> storable(before.dom(), loaded, j)
    &&& is_store_failure(error, loaded[k])
    &&& is_stored_upto(before, after, loaded, k)
}

} // verus!
