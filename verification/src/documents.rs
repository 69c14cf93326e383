use vstd::prelude::*;
use dashmap::DashMap;
use dashmap::try_result::TryResult;
use crate::concurrent::Lookup;
use crate::document::{ContentChange, DocumentModel, TextDocument, document_after};
use crate::errors::{DocumentError, MakepadAnalyzerError};

verus! {

/// The documents that a table holds, by path.
pub uninterp spec fn documents_held(table: DashMap<String, TextDocument>) -> Map<
    Seq<char>,
    TextDocument,
>;

/// `DashMap::new`: the new map holds nothing.
#[verifier::external_body]
fn table_new() -> (made: DashMap<String, TextDocument>)
    ensures
        (documents_held(made) == Map::<Seq<char>, TextDocument>::empty()),
{
    DashMap::new()
}

/// `DashMap::contains_key`: whether the map holds an entry under the key.
#[verifier::external_body]
fn table_contains(table: &DashMap<String, TextDocument>, path: &str) -> (held: bool)
    ensures
        held == documents_held(*table).contains_key(path@),
{
    table.contains_key(path)
}

/// `DashMap::insert`: the map then holds the value under the key, and the
/// value that the key had before is handed back.
#[verifier::external_body]
fn table_insert(table: &mut DashMap<String, TextDocument>, path: String, doc: TextDocument) -> (old_doc:
    Option<TextDocument>)
    ensures
        documents_held(*final(table)) == documents_held(*old(table)).insert(path@, doc),
        old_doc == if documents_held(*old(table)).contains_key(path@) {
            Some(documents_held(*old(table))[path@])
        } else {
            None
        },
{
    table.insert(path, doc)
}

/// `DashMap::remove`: the map no longer holds the key, and the entry that it
/// had is handed back.
#[verifier::external_body]
fn table_remove(table: &mut DashMap<String, TextDocument>, path: &str) -> (old_doc: Option<
    TextDocument,
>)
    ensures
        documents_held(*final(table)) == documents_held(*old(table)).remove(path@),
        old_doc == if documents_held(*old(table)).contains_key(path@) {
            Some(documents_held(*old(table))[path@])
        } else {
            None
        },
{
    table.remove(path).map(|(_, doc)| doc)
}

/// `DashMap::try_get`: a copy of the entry if the map could be read and
/// holds it, `Absent` if it could be read and does not; `Locked` can come
/// back whatever the map holds. Of the copy no more is claimed than
/// `Clone for TextDocument` proves: it stands for the same document, and
/// is well formed where the entry is.
#[verifier::external_body]
fn table_try_get(table: &DashMap<String, TextDocument>, path: &str) -> (found: Lookup<
    TextDocument,
>)
    ensures
        found matches Lookup::Present(doc) ==> documents_held(*table).contains_key(path@) && doc@
            == documents_held(*table)[path@]@ && (documents_held(*table)[path@].wf()
            ==> doc.wf()),
        found is Absent ==> !documents_held(*table).contains_key(path@),
{
    match table.try_get(path) {
        TryResult::Present(entry) => Lookup::Present(entry.value().clone()),
        TryResult::Absent => Lookup::Absent,
        TryResult::Locked => Lookup::Locked,
    }
}

/// What a sequence of changes makes of a document: the changes are applied
/// in order up to the first that is refused, whose span is then the second
/// part of the result.
pub open spec fn documents_after(doc: DocumentModel, changes: Seq<ContentChange>) -> (
    DocumentModel,
    Option<crate::document::Range>,
)
    decreases changes.len(),
{
    if changes.len() == 0 {
        (doc, None)
    } else {
        match document_after(doc, changes[0]) {
            Some(next) => documents_after(next, changes.drop_first()),
            None => (doc, changes[0].range),
        }
    }
}

/// Changes leave the identifier alone, and each one applied raises the
/// version by one.
pub proof fn lemma_changes_keep_uri(doc: DocumentModel, changes: Seq<ContentChange>)
    ensures
        documents_after(doc, changes).0.uri == doc.uri,
        doc.version <= documents_after(doc, changes).0.version <= doc.version + changes.len(),
        documents_after(doc, changes).1 is None ==> documents_after(doc, changes).0.version
            == doc.version + changes.len(),
    decreases changes.len(),
{
    if changes.len() > 0 {
        match document_after(doc, changes[0]) {
            Some(next) => lemma_changes_keep_uri(next, changes.drop_first()),
            None => {},
        }
    }
}

/// Whether `outcome`, with the table going from `before` to `after`, is what
/// an update of the document under `path` with `changes` gives. Either no
/// document was found, and nothing changed; or the document under `path`
/// is what the changes made of it, every other document is as it was, and
/// the outcome is the new text, or the span of the first change refused.
pub open spec fn is_update(
    before: Map<Seq<char>, TextDocument>,
    after: Map<Seq<char>, TextDocument>,
    path: Seq<char>,
    changes: Seq<ContentChange>,
    outcome: Result<String, DocumentError>,
) -> bool {
    if outcome matches Err(DocumentError::DocumentNotFound { .. }) {
        (outcome matches Err(DocumentError::DocumentNotFound { path: missing }) && missing@
            == path) && after == before
    } else {
        &&& before.contains_key(path)
        &&& after.dom() == before.dom()
        &&& after[path]@ == documents_after(before[path]@, changes).0
        &&& forall|other: Seq<char>|
            other != path && before.contains_key(other) ==> #[trigger] after[other]
                == before[other]
        &&& match documents_after(before[path]@, changes).1 {
            None => outcome matches Ok(text) && text@ == documents_after(
                before[path]@,
                changes,
            ).0.text,
            Some(range) => outcome matches Err(DocumentError::InvalidRange { range: refused })
                && refused == range,
        }
    }
}

/// Whether `outcome`, with the table going from `before` to `after`, is what
/// an update gives, told as a failure of the analyzer.
pub open spec fn is_written(
    before: Map<Seq<char>, TextDocument>,
    after: Map<Seq<char>, TextDocument>,
    path: Seq<char>,
    changes: Seq<ContentChange>,
    outcome: Result<String, MakepadAnalyzerError>,
) -> bool {
    match outcome {
        Ok(text) => is_update(before, after, path, changes, Ok(text)),
        Err(MakepadAnalyzerError::DocumentError(e)) => is_update(
            before,
            after,
            path,
            changes,
            Err(e),
        ),
        Err(_) => false,
    }
}

/// The open documents, by path.
pub struct Documents {
    table: DashMap<String, TextDocument>,
}

impl Documents {
    /// The documents held, by path.
    pub closed spec fn contents(&self) -> Map<Seq<char>, TextDocument> {
        documents_held(self.table)
    }

    /// Every document is well formed and stored under its own identifier.
    pub closed spec fn wf(&self) -> bool {
        Self::table_wf(self.contents())
    }

    /// Every document of `held` is well formed and stored under its own
    /// identifier.
    pub open spec fn table_wf(held: Map<Seq<char>, TextDocument>) -> bool {
        forall|path: Seq<char>| #[trigger]
            held.contains_key(path) ==> held[path].wf() && held[path]@.uri == path
    }

    /// A table stays well formed where all that changed is the entry under
    /// one path, which is gone or well formed and stored under that path.
    proof fn lemma_wf_kept(
        before: Map<Seq<char>, TextDocument>,
        after: Map<Seq<char>, TextDocument>,
        changed: Seq<char>,
    )
        requires
            Self::table_wf(before),
            forall|path: Seq<char>|
                path != changed && #[trigger] after.contains_key(path) ==> before.contains_key(
                    path,
                ) && after[path] == before[path],
            after.contains_key(changed) ==> after[changed].wf() && after[changed]@.uri == changed,
        ensures
            Self::table_wf(after),
    {
        assert forall|path: Seq<char>| after.contains_key(path) implies after[path].wf()
            && after[path]@.uri == path by {
            if path != changed {
                assert(before.contains_key(path));
            }
        }
    }

    pub fn new() -> (documents: Self)
        ensures
            documents.wf(),
            documents.contents() == Map::<Seq<char>, TextDocument>::empty(),
    {
        Documents { table: table_new() }
    }

    /// Whether a document is held under `path`.
    pub fn contains(&self, path: &str) -> (held: bool)
        ensures
            held == self.contents().contains_key(path@),
    {
        table_contains(&self.table, path)
    }

    /// Puts a document into the table under its own identifier. Where the
    /// table holds one under that identifier already, nothing changes and
    /// the call reports `DocumentAlreadyStored`.
    pub fn store_document(&mut self, text_document: TextDocument) -> (stored: Result<
        (),
        DocumentError,
    >)
        requires
            old(self).wf(),
            text_document.wf(),
        ensures
            final(self).wf(),
            !old(self).contents().contains_key(text_document@.uri) ==> stored is Ok
                && final(self).contents() == old(self).contents().insert(
                text_document@.uri,
                text_document,
            ),
            old(self).contents().contains_key(text_document@.uri) ==> final(self).contents()
                == old(self).contents() && (stored matches Err(
                DocumentError::DocumentAlreadyStored { path },
            ) && path@ == text_document@.uri),
    {
        let uri = text_document.get_uri().to_owned();
        if table_contains(&self.table, uri.as_str()) {
            return Err(DocumentError::DocumentAlreadyStored { path: uri });
        }
        let _ = table_insert(&mut self.table, uri.clone(), text_document);
        proof {
            Self::lemma_wf_kept(old(self).contents(), self.contents(), uri@);
        }
        Ok(())
    }

    /// What a lookup under `path` that gave `found` amounts to: the document,
    /// or `DocumentNotFound` where none was handed out.
    pub fn lookup_outcome(path: &str, found: Lookup<TextDocument>) -> (outcome: Result<
        TextDocument,
        DocumentError,
    >)
        ensures
            match found {
                Lookup::Present(doc) => outcome matches Ok(given) && given == doc,
                _ => outcome matches Err(DocumentError::DocumentNotFound { path: missing })
                    && missing@ == path@,
            },
    {
        match found {
            Lookup::Present(doc) => Ok(doc),
            _ => Err(DocumentError::DocumentNotFound { path: path.to_owned() }),
        }
    }

    /// A copy of the document held under `path`. `DocumentNotFound` comes
    /// back where none is held, and where the table could not be read.
    pub fn get_text_document(&self, path: &str) -> (outcome: Result<TextDocument, DocumentError>)
        requires
            self.wf(),
        ensures
            outcome matches Ok(doc) ==> self.contents().contains_key(path@) && doc@
                == self.contents()[path@]@ && doc.wf(),
            outcome matches Err(e) ==> (e matches DocumentError::DocumentNotFound { path: missing }
                && missing@ == path@),
            !self.contents().contains_key(path@) ==> outcome is Err,
    {
        let found = table_try_get(&self.table, path);
        proof {
            if found is Present {
                assert(self.contents().contains_key(path@));
            }
        }
        Self::lookup_outcome(path, found)
    }

    /// Takes the document held under `path` out of the table.
    pub fn remove_document(&mut self, path: &str) -> (outcome: Result<TextDocument, DocumentError>)
        requires
            old(self).wf(),
        ensures
            final(self).wf(),
            final(self).contents() == old(self).contents().remove(path@),
            old(self).contents().contains_key(path@) ==> (outcome matches Ok(doc) && doc == old(self).contents()[path@] && doc.wf()),
            !old(self).contents().contains_key(path@) ==> (outcome matches Err(
                DocumentError::DocumentNotFound { path: missing },
            ) && missing@ == path@),
    {
        let removed = table_remove(&mut self.table, path);
        proof {
            Self::lemma_wf_kept(old(self).contents(), self.contents(), path@);
            if removed is Some {
                assert(old(self).contents().contains_key(path@));
            }
        }
        match removed {
            Some(doc) => Ok(doc),
            None => Err(DocumentError::DocumentNotFound { path: path.to_owned() }),
        }
    }

    /// Applies `changes` in order to `doc`, stopping at the first that is
    /// refused.
    pub fn apply_changes(doc: &mut TextDocument, changes: &Vec<ContentChange>) -> (done: Result<
        (),
        DocumentError,
    >)
        requires
            old(doc).wf(),
            old(doc)@.version + changes@.len() <= i32::MAX,
        ensures
            final(doc).wf(),
            final(doc)@ == documents_after(old(doc)@, changes@).0,
            match documents_after(old(doc)@, changes@).1 {
                None => done is Ok,
                Some(range) => done matches Err(DocumentError::InvalidRange { range: refused })
                    && refused == range,
            },
    {
        let mut i: usize = 0;
        assert(changes@.skip(0) =~= changes@);
        while i < changes.len()
            invariant
                0 <= i <= changes@.len(),
                doc.wf(),
                doc@.version + (changes@.len() - i) <= i32::MAX,
                documents_after(doc@, changes@.skip(i as int)) == documents_after(
                    old(doc)@,
                    changes@,
                ),
            decreases changes@.len() - i,
        {
            assert(changes@.skip(i as int).drop_first() =~= changes@.skip(i + 1));
            assert(changes@.skip(i as int)[0] == changes@[i as int]);
            match doc.apply_change(&changes[i]) {
                Ok(()) => {},
                Err(e) => {
                    return Err(e);
                },
            }
            i += 1;
        }
        Ok(())
    }

    /// Applies `changes` in order to the document held under `path` and
    /// hands back its text. The changes before the first refused one stay
    /// applied; that one is reported, and the ones after it are not tried.
    pub fn update_text_document(&mut self, path: &str, changes: &Vec<ContentChange>) -> (outcome:
        Result<String, DocumentError>)
        requires
            old(self).wf(),
            old(self).contents().contains_key(path@) ==> old(self).contents()[path@]@.version
                + changes@.len() <= i32::MAX,
        ensures
            final(self).wf(),
            !old(self).contents().contains_key(path@) ==> {
                &&& final(self).contents() == old(self).contents()
                &&& outcome matches Err(DocumentError::DocumentNotFound { path: missing })
                &&& missing@ == path@
            },
            outcome matches Ok(text) ==> {
                &&& old(self).contents().contains_key(path@)
                &&& documents_after(old(self).contents()[path@]@, changes@).1 is None
                &&& text@ == documents_after(old(self).contents()[path@]@, changes@).0.text
            },
            outcome matches Err(DocumentError::InvalidRange { range }) ==> {
                &&& old(self).contents().contains_key(path@)
                &&& documents_after(old(self).contents()[path@]@, changes@).1 == Some(range)
            },
            outcome matches Err(DocumentError::DocumentNotFound { path: missing }) ==> {
                &&& final(self).contents() == old(self).contents()
                &&& missing@ == path@
            },
            outcome matches Err(e) ==> e is InvalidRange || e is DocumentNotFound,
            is_update(old(self).contents(), final(self).contents(), path@, changes@, outcome),
            !(outcome matches Err(DocumentError::DocumentNotFound { .. })) ==> {
                &&& final(self).contents().dom() == old(self).contents().dom()
                &&& final(self).contents()[path@]@ == documents_after(
                    old(self).contents()[path@]@,
                    changes@,
                ).0
                &&& forall|other: Seq<char>|
                    other != path@ && old(self).contents().contains_key(other) ==> final(self).contents()[other] == old(self).contents()[other]
            },
    {
        match table_try_get(&self.table, path) {
            Lookup::Present(mut doc) => {
                assert(self.contents().contains_key(path@));
                let done = Self::apply_changes(&mut doc, changes);
                let text = doc.get_text().to_owned();
                let _ = table_insert(&mut self.table, path.to_owned(), doc);
                proof {
                    lemma_changes_keep_uri(old(self).contents()[path@]@, changes@);
                    Self::lemma_wf_kept(old(self).contents(), self.contents(), path@);
                    assert(self.contents().dom() =~= old(self).contents().dom());
                }
                match done {
                    Ok(()) => Ok(text),
                    Err(e) => Err(e),
                }
            },
            _ => Err(DocumentError::DocumentNotFound { path: path.to_owned() }),
        }
    }

    /// Applies `changes` to the document held under `path` and hands back
    /// the text that is then to be written to the file.
    pub fn write_changes_to_file(&mut self, path: &str, changes: &Vec<ContentChange>) -> (outcome:
        Result<String, MakepadAnalyzerError>)
        requires
            old(self).wf(),
            old(self).contents().contains_key(path@) ==> old(self).contents()[path@]@.version
                + changes@.len() <= i32::MAX,
        ensures
            final(self).wf(),
            is_written(old(self).contents(), final(self).contents(), path@, changes@, outcome),
    {
        match self.update_text_document(path, changes) {
            Ok(text) => Ok(text),
            Err(e) => Err(MakepadAnalyzerError::DocumentError(e)),
        }
    }

    /// What came of writing the text of a document to the file at `path`:
    /// `created` tells whether the file could be made, and `written`
    /// whether the text could be put into it; each failure has its own
    /// error, with the message that came with it.
    pub fn persist_outcome(path: &str, created: Result<(), String>, written: Result<(), String>) -> (outcome:
        Result<(), MakepadAnalyzerError>)
        ensures
            match (created, written) {
                (Err(message), _) => outcome matches Err(
                    MakepadAnalyzerError::DocumentError(
                        DocumentError::UnableToCreateFile { path: given, err },
                    ),
                ) && given@ == path@ && err == message,
                (Ok(_), Err(message)) => outcome matches Err(
                    MakepadAnalyzerError::DocumentError(
                        DocumentError::UnableToWriteFile { path: given, err },
                    ),
                ) && given@ == path@ && err == message,
                (Ok(_), Ok(_)) => outcome is Ok,
            },
    {
        match created {
            Err(message) => Err(
                MakepadAnalyzerError::DocumentError(
                    DocumentError::UnableToCreateFile { path: path.to_owned(), err: message },
                ),
            ),
            Ok(()) => match written {
                Err(message) => Err(
                    MakepadAnalyzerError::DocumentError(
                        DocumentError::UnableToWriteFile { path: path.to_owned(), err: message },
                    ),
                ),
                Ok(()) => Ok(()),
            },
        }
    }

    /// Takes note of a file that was opened: where no document is held under
    /// `path` and the file could be read, a fresh document with what was read
    /// is stored; in every other case the table stays as it is.
    pub fn handle_open_file(&mut self, path: &str, read: Result<String, DocumentError>)
        requires
            old(self).wf(),
        ensures
            final(self).wf(),
            old(self).contents().contains_key(path@) || read is Err ==> final(self).contents()
                == old(self).contents(),
            !old(self).contents().contains_key(path@) && read is Ok ==> {
                &&& final(self).contents().dom() == old(self).contents().dom().insert(path@)
                &&& final(self).contents()[path@]@ == (DocumentModel {
                    uri: path@,
                    version: 1,
                    text: read->Ok_0@,
                })
                &&& forall|other: Seq<char>|
                    other != path@ && old(self).contents().contains_key(other) ==> final(self).contents()[other] == old(self).contents()[other]
            },
    {
        if !self.contains(path) {
            if let Ok(content) = read {
                let _ = self.store_document(TextDocument::new(path, content));
            }
        }
    }
}

} // verus!
