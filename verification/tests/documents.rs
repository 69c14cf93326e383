use makepad_analyzer::concurrent::Lookup;
use makepad_analyzer::document::{ContentChange, Position, Range, ReadFailure, TextDocument};
use makepad_analyzer::documents::Documents;
use makepad_analyzer::errors::{DocumentError, MakepadAnalyzerError};
use makepad_analyzer::session::Session;

fn whole(text: &str) -> ContentChange {
    ContentChange { range: None, text: text.to_string() }
}

fn spliced(start: (u32, u32), end: (u32, u32), text: &str) -> ContentChange {
    ContentChange {
        range: Some(Range {
            start: Position { line: start.0, character: start.1 },
            end: Position { line: end.0, character: end.1 },
        }),
        text: text.to_string(),
    }
}

#[test]
fn build_from_path_returns_text_document() {
    let path = "E:\\makepad-analyzer\\crates\\core\\Cargo.toml";
    let result = TextDocument::build_from_path(path, Ok("[package]\nname = \"core\"\n".to_string()));
    let document = result.unwrap();
    assert_eq!(document.version(), 1);
    assert_eq!(document.get_uri(), path);
    assert!(!document.get_text().is_empty());
    assert!(!document.line_offsets().is_empty());
}

#[test]
fn build_from_path_returns_document_not_found_error() {
    let path = "E:\\makepad-analyzer\\crates\\core\\non-existent-file.txt";
    let result =
        TextDocument::build_from_path(path, Err((ReadFailure::NotFound, "gone".to_string())))
            .expect_err("expected DocumentNotFound");
    assert_eq!(result, DocumentError::DocumentNotFound { path: path.into() });
}

#[test]
fn build_from_path_tells_the_failures_apart() {
    let denied = TextDocument::build_from_path(
        "/x",
        Err((ReadFailure::PermissionDenied, "no".to_string())),
    );
    assert_eq!(denied.unwrap_err(), DocumentError::PermissionDenied { path: "/x".to_string() });
    let other = TextDocument::build_from_path("/x", Err((ReadFailure::Other, "disk".to_string())));
    assert_eq!(
        other.unwrap_err(),
        DocumentError::IOError { path: "/x".to_string(), error: "disk".to_string() }
    );
}

#[test]
fn store_twice_reports_already_stored_and_keeps_the_first_document() {
    let mut documents = Documents::new();
    assert_eq!(documents.store_document(TextDocument::new("/a.rs", "one".to_string())), Ok(()));
    assert!(documents.contains("/a.rs"));
    assert_eq!(
        documents.store_document(TextDocument::new("/a.rs", "two".to_string())),
        Err(DocumentError::DocumentAlreadyStored { path: "/a.rs".to_string() })
    );
    assert_eq!(documents.get_text_document("/a.rs").unwrap().get_text(), "one");
    assert_eq!(documents.store_document(TextDocument::new("/b.rs", "two".to_string())), Ok(()));
    assert_eq!(documents.get_text_document("/b.rs").unwrap().get_text(), "two");
    assert_eq!(documents.get_text_document("/a.rs").unwrap().get_text(), "one");
}

#[test]
fn get_and_remove_fail_for_a_missing_document() {
    let mut documents = Documents::new();
    let missing = DocumentError::DocumentNotFound { path: "/a.rs".to_string() };
    assert!(!documents.contains("/a.rs"));
    assert_eq!(documents.get_text_document("/a.rs").unwrap_err(), missing);
    assert_eq!(documents.remove_document("/a.rs").unwrap_err(), missing);
    documents.store_document(TextDocument::new("/a.rs", "x".to_string())).unwrap();
    assert_eq!(documents.remove_document("/a.rs").unwrap().get_text(), "x");
    assert!(!documents.contains("/a.rs"));
}

#[test]
fn lookup_outcome_maps_every_answer() {
    let doc = TextDocument::new("/a.rs", "x".to_string());
    assert_eq!(
        Documents::lookup_outcome("/a.rs", Lookup::Present(doc)).unwrap().get_text(),
        "x"
    );
    let missing = DocumentError::DocumentNotFound { path: "/a.rs".to_string() };
    assert_eq!(Documents::lookup_outcome("/a.rs", Lookup::Absent).unwrap_err(), missing);
    assert_eq!(Documents::lookup_outcome("/a.rs", Lookup::Locked).unwrap_err(), missing);
}

#[test]
fn update_applies_changes_in_order() {
    let mut documents = Documents::new();
    documents.store_document(TextDocument::new("/a.rs", "ab\ncd".to_string())).unwrap();
    let changes = vec![spliced((0, 1), (0, 2), "X"), spliced((1, 0), (1, 0), "-"), whole("z\n")];
    assert_eq!(documents.update_text_document("/a.rs", &changes[..2].to_vec()), Ok("aX\n-cd".to_string()));
    assert_eq!(documents.get_text_document("/a.rs").unwrap().version(), 3);
    assert_eq!(documents.update_text_document("/a.rs", &changes[2..].to_vec()), Ok("z\n".to_string()));
    assert_eq!(documents.get_text_document("/a.rs").unwrap().version(), 4);
}

#[test]
fn update_stops_at_the_first_refused_change() {
    let mut documents = Documents::new();
    documents.store_document(TextDocument::new("/a.rs", "abc".to_string())).unwrap();
    let bad = spliced((0, 2), (0, 9), "!");
    let changes = vec![whole("xy"), bad.clone(), whole("never")];
    assert_eq!(
        documents.update_text_document("/a.rs", &changes),
        Err(DocumentError::InvalidRange { range: bad.range.unwrap() })
    );
    let kept = documents.get_text_document("/a.rs").unwrap();
    assert_eq!(kept.get_text(), "xy");
    assert_eq!(kept.version(), 2);
}

#[test]
fn update_of_a_missing_document_fails() {
    let mut documents = Documents::new();
    assert_eq!(
        documents.update_text_document("/a.rs", &vec![whole("x")]),
        Err(DocumentError::DocumentNotFound { path: "/a.rs".to_string() })
    );
    assert_eq!(
        documents.write_changes_to_file("/a.rs", &vec![whole("x")]),
        Err(MakepadAnalyzerError::DocumentError(DocumentError::DocumentNotFound {
            path: "/a.rs".to_string()
        }))
    );
}

#[test]
fn write_changes_hands_back_the_text_to_write() {
    let mut documents = Documents::new();
    documents.store_document(TextDocument::new("/a.rs", "abc".to_string())).unwrap();
    assert_eq!(
        documents.write_changes_to_file("/a.rs", &vec![spliced((0, 3), (0, 3), "d")]),
        Ok("abcd".to_string())
    );
}

#[test]
fn persist_outcome_tells_create_and_write_failures_apart() {
    assert_eq!(Documents::persist_outcome("/a.rs", Ok(()), Ok(())), Ok(()));
    assert_eq!(
        Documents::persist_outcome("/a.rs", Err("full".to_string()), Ok(())),
        Err(MakepadAnalyzerError::DocumentError(DocumentError::UnableToCreateFile {
            path: "/a.rs".to_string(),
            err: "full".to_string()
        }))
    );
    assert_eq!(
        Documents::persist_outcome("/a.rs", Ok(()), Err("broken".to_string())),
        Err(MakepadAnalyzerError::DocumentError(DocumentError::UnableToWriteFile {
            path: "/a.rs".to_string(),
            err: "broken".to_string()
        }))
    );
}

#[test]
fn open_file_stores_once() {
    let mut documents = Documents::new();
    documents.handle_open_file("/a.rs", Err(DocumentError::DocumentNotFound { path: "/a.rs".to_string() }));
    assert!(!documents.contains("/a.rs"));
    documents.handle_open_file("/a.rs", Ok("first".to_string()));
    documents.handle_open_file("/a.rs", Ok("second".to_string()));
    let held = documents.get_text_document("/a.rs").unwrap();
    assert_eq!(held.get_text(), "first");
    assert_eq!(held.version(), 1);
}

#[test]
fn apply_changes_on_a_single_document() {
    let mut doc = TextDocument::new("/a.rs", String::new());
    assert_eq!(Documents::apply_changes(&mut doc, &vec![whole("a"), whole("b")]), Ok(()));
    assert_eq!(doc.get_text(), "b");
    assert_eq!(doc.version(), 3);
    assert_eq!(Documents::apply_changes(&mut doc, &vec![]), Ok(()));
    assert_eq!(doc.version(), 3);
}

#[test]
fn project_files_are_stored_at_version_one_with_the_text_read() {
    let mut documents = Documents::new();
    documents.store_document(TextDocument::new("/held.rs", "held".to_string())).unwrap();
    assert_eq!(
        Session::store_project_files(
            &mut documents,
            vec![
                ("/t/a.rs".to_string(), Ok("a\nb".to_string())),
                ("/t/Cargo.toml".to_string(), Ok(String::new())),
            ]
        ),
        Ok(())
    );
    let a = documents.get_text_document("/t/a.rs").unwrap();
    assert_eq!(a.get_uri(), "/t/a.rs");
    assert_eq!(a.version(), 1);
    assert_eq!(a.get_text(), "a\nb");
    assert_eq!(documents.get_text_document("/t/Cargo.toml").unwrap().get_text(), "");
    assert_eq!(documents.get_text_document("/held.rs").unwrap().get_text(), "held");
}

#[test]
fn storing_project_files_stops_at_the_first_failure() {
    let mut documents = Documents::new();
    let unread = DocumentError::IOError { path: "/t/b.rs".to_string(), error: "disk".to_string() };
    assert_eq!(
        Session::store_project_files(
            &mut documents,
            vec![
                ("/t/a.rs".to_string(), Ok("a".to_string())),
                ("/t/b.rs".to_string(), Err(unread.clone())),
                ("/t/a.rs".to_string(), Ok("again".to_string())),
                ("/t/c.rs".to_string(), Ok("c".to_string())),
            ]
        ),
        Err(MakepadAnalyzerError::DocumentError(unread))
    );
    assert_eq!(documents.get_text_document("/t/a.rs").unwrap().get_text(), "a");
    assert!(!documents.contains("/t/b.rs"));
    assert!(!documents.contains("/t/c.rs"));
    assert_eq!(
        Session::store_project_files(
            &mut documents,
            vec![
                ("/t/c.rs".to_string(), Ok("c".to_string())),
                ("/t/c.rs".to_string(), Ok("twice".to_string())),
                ("/t/d.rs".to_string(), Ok("d".to_string())),
            ]
        ),
        Err(MakepadAnalyzerError::DocumentError(DocumentError::DocumentAlreadyStored {
            path: "/t/c.rs".to_string()
        }))
    );
    assert_eq!(documents.get_text_document("/t/c.rs").unwrap().get_text(), "c");
    assert!(!documents.contains("/t/d.rs"));
}
