use makepad_analyzer::document::{ContentChange, Position, Range, TextDocument};
use makepad_analyzer::errors::DocumentError;

fn range(start_line: u32, start_char: u32, end_line: u32, end_char: u32) -> Range {
    Range {
        start: Position { line: start_line, character: start_char },
        end: Position { line: end_line, character: end_char },
    }
}

#[test]
fn get_line_returns_correct_line() {
    let content = "line1\nline2\nline3".to_string();
    let document = TextDocument::new("test.rs", content);
    assert_eq!(document.get_line(0), "line1\n");
    assert_eq!(document.get_line(1), "line2\n");
    assert_eq!(document.get_line(2), "line3");
}

#[test]
fn get_line_beyond_the_last_line_is_empty() {
    let document = TextDocument::new("test.rs", "a\nb".to_string());
    assert_eq!(document.get_line(2), "");
    assert_eq!(document.get_line(usize::MAX), "");
}

#[test]
fn new_document_starts_at_version_one() {
    let document = TextDocument::new("a.rs", "x".to_string());
    assert_eq!(document.version(), 1);
    assert_eq!(document.get_uri(), "a.rs");
    assert_eq!(document.get_text(), "x");
}

#[test]
fn line_offsets_count_newlines() {
    assert_eq!(TextDocument::calculate_line_offsets(""), vec![0]);
    assert_eq!(TextDocument::calculate_line_offsets("abc"), vec![0]);
    assert_eq!(TextDocument::calculate_line_offsets("a\nbc\n"), vec![0, 2, 5]);
    assert_eq!(TextDocument::calculate_line_offsets("\n\n"), vec![0, 1, 2]);
    assert_eq!(TextDocument::calculate_line_offsets("é\nx"), vec![0, 3]);
}

#[test]
fn whole_document_replace_sets_text_and_raises_version() {
    let mut document = TextDocument::new("a.rs", "old\ntext".to_string());
    let change = ContentChange { range: None, text: "new".to_string() };
    assert_eq!(document.apply_change(&change), Ok(()));
    assert_eq!(document.get_text(), "new");
    assert_eq!(document.version(), 2);
    assert_eq!(document.line_offsets(), &vec![0]);
}

#[test]
fn range_replace_splices_text() {
    let mut document = TextDocument::new("a.rs", "hello\nworld".to_string());
    let change = ContentChange { range: Some(range(1, 0, 1, 5)), text: "there\n!".to_string() };
    assert_eq!(document.apply_change(&change), Ok(()));
    assert_eq!(document.get_text(), "hello\nthere\n!");
    assert_eq!(document.version(), 2);
    assert_eq!(document.line_offsets(), &vec![0, 6, 12]);
}

#[test]
fn insertion_then_removal_restores_text_and_offsets() {
    let mut document = TextDocument::new("a.rs", "ab\ncd".to_string());
    let before = document.line_offsets().clone();
    let insertion = ContentChange { range: Some(range(1, 1, 1, 1)), text: "X\nY".to_string() };
    assert_eq!(document.apply_change(&insertion), Ok(()));
    assert_eq!(document.get_text(), "ab\ncX\nYd");
    let removal = ContentChange { range: Some(range(1, 1, 2, 1)), text: String::new() };
    assert_eq!(document.apply_change(&removal), Ok(()));
    assert_eq!(document.get_text(), "ab\ncd");
    assert_eq!(document.line_offsets(), &before);
    assert_eq!(document.version(), 3);
}

#[test]
fn range_past_the_end_is_invalid() {
    let mut document = TextDocument::new("a.rs", "abc".to_string());
    let bad = range(0, 2, 0, 9);
    let change = ContentChange { range: Some(bad), text: "x".to_string() };
    assert_eq!(document.apply_change(&change), Err(DocumentError::InvalidRange { range: bad }));
    assert_eq!(document.get_text(), "abc");
    assert_eq!(document.version(), 1);
}

#[test]
fn backward_range_is_invalid() {
    let mut document = TextDocument::new("a.rs", "abc".to_string());
    let bad = range(0, 2, 0, 1);
    let change = ContentChange { range: Some(bad), text: String::new() };
    assert_eq!(document.apply_change(&change), Err(DocumentError::InvalidRange { range: bad }));
}

#[test]
fn range_inside_a_character_is_invalid() {
    let mut document = TextDocument::new("a.rs", "é".to_string());
    let bad = range(0, 1, 0, 2);
    let change = ContentChange { range: Some(bad), text: String::new() };
    assert_eq!(document.apply_change(&change), Err(DocumentError::InvalidRange { range: bad }));
    assert_eq!(document.get_text(), "é");
}

#[test]
fn missing_line_counts_from_the_end_of_the_text() {
    let mut document = TextDocument::new("a.rs", "abc".to_string());
    let change = ContentChange { range: Some(range(7, 0, 7, 0)), text: "!".to_string() };
    assert_eq!(document.apply_change(&change), Ok(()));
    assert_eq!(document.get_text(), "abc!");
}
