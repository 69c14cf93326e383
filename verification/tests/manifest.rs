use makepad_analyzer::errors::{DirectoryError, DocumentError, MakepadAnalyzerError};
use makepad_analyzer::manifest::MakepadManifestFile;
use makepad_analyzer::paths::{file_name, has_suffix, join, parent, rebase, same_text};
use makepad_analyzer::session_manager::manifest_root;

fn listing(paths: &[&str]) -> Vec<String> {
    paths.iter().map(|path| path.to_string()).collect()
}

#[test]
fn test_find_cargo_toml() {
    let dir = "D:\\projects\\project-robius\\robrix\\src\\login\\login_screen.rs";
    let dir2 = "E:\\makepad\\examples\\simple\\src\\app.rs";
    let existing = listing(&[
        "D:\\projects\\project-robius\\robrix\\src\\login\\login_screen.rs",
        "D:\\projects\\project-robius\\robrix\\src\\login",
        "D:\\projects\\project-robius\\robrix\\src",
        "D:\\projects\\project-robius\\robrix",
        "D:\\projects\\project-robius\\robrix\\Cargo.toml",
        "E:\\makepad\\examples\\simple\\src\\app.rs",
        "E:\\makepad\\examples\\simple\\src",
        "E:\\makepad\\examples\\simple",
        "E:\\makepad\\examples\\simple\\Cargo.toml",
    ]);

    let cargo_toml = MakepadManifestFile::find_cargo_toml(dir, &existing);
    let cargo_toml2 = MakepadManifestFile::find_cargo_toml(dir2, &existing);
    assert_eq!(
        cargo_toml,
        Some(String::from("D:\\projects\\project-robius\\robrix\\Cargo.toml"))
    );
    assert_eq!(cargo_toml2, Some(String::from("E:\\makepad\\examples\\simple\\Cargo.toml")));
}

#[test]
fn nearest_manifest_wins() {
    let existing = listing(&[
        "/w/outer/inner/src/a.rs",
        "/w/outer/inner/src",
        "/w/outer/inner",
        "/w/outer/inner/Cargo.toml",
        "/w/outer",
        "/w/outer/Cargo.toml",
    ]);
    assert_eq!(
        MakepadManifestFile::find_cargo_toml("/w/outer/inner/src/a.rs", &existing),
        Some("/w/outer/inner/Cargo.toml".to_string())
    );
    let manifest = MakepadManifestFile::from_dir("/w/outer/inner/src", &existing).unwrap();
    assert_eq!(manifest.path(), "/w/outer/inner/Cargo.toml");
    assert_eq!(manifest_root(&manifest), Ok("/w/outer/inner".to_string()));
}

#[test]
fn no_manifest_up_to_the_root() {
    let existing = listing(&["/w/a/b.rs", "/w/a", "/w", "/"]);
    assert_eq!(MakepadManifestFile::find_cargo_toml("/w/a/b.rs", &existing), None);
    assert_eq!(
        MakepadManifestFile::from_dir("/w/a/b.rs", &existing),
        Err(MakepadAnalyzerError::DocumentError(DocumentError::ManifestFileNotFound {
            dir: "/w/a/b.rs".to_string()
        }))
    );
}

#[test]
fn walk_passes_over_a_path_that_does_not_exist() {
    let existing = listing(&["/w", "/w/Cargo.toml"]);
    assert_eq!(
        MakepadManifestFile::find_cargo_toml("/w/a/b.rs", &existing),
        Some("/w/Cargo.toml".to_string())
    );
    assert_eq!(
        MakepadManifestFile::find_cargo_toml("/w/gone/deeper/b.rs", &existing),
        Some("/w/Cargo.toml".to_string())
    );
    assert_eq!(MakepadManifestFile::find_cargo_toml("/gone/b.rs", &existing), None);
}

#[test]
fn no_manifest_on_the_way_up_is_reported_with_the_start() {
    let existing = listing(&["/w/a/b.rs", "/w/a", "/w", "/", "/other/Cargo.toml"]);
    match MakepadManifestFile::from_dir("/w/a/b.rs", &existing) {
        Err(MakepadAnalyzerError::DocumentError(DocumentError::ManifestFileNotFound { dir })) => {
            assert_eq!(dir, "/w/a/b.rs")
        }
        other => panic!("unexpected: {:?}", other),
    }
}

#[test]
fn manifest_in_the_root() {
    let existing = listing(&["/a.rs", "/", "/Cargo.toml"]);
    assert_eq!(
        MakepadManifestFile::find_cargo_toml("/a.rs", &existing),
        Some("/Cargo.toml".to_string())
    );
}

#[test]
fn parent_takes_off_the_last_component() {
    assert_eq!(parent("/a/b/c.rs"), Some("/a/b".to_string()));
    assert_eq!(parent("/a/b/"), Some("/a".to_string()));
    assert_eq!(parent("/a"), Some("/".to_string()));
    assert_eq!(parent("/"), None);
    assert_eq!(parent(""), None);
    assert_eq!(parent("a"), Some(String::new()));
    assert_eq!(parent("a//b"), Some("a".to_string()));
    assert_eq!(parent("C:\\x\\y"), Some("C:\\x".to_string()));
}

#[test]
fn file_name_is_the_last_component() {
    assert_eq!(file_name("/a/b/c.rs"), Some("c.rs".to_string()));
    assert_eq!(file_name("/a/b/"), Some("b".to_string()));
    assert_eq!(file_name("c.rs"), Some("c.rs".to_string()));
    assert_eq!(file_name("/"), None);
    assert_eq!(file_name(""), None);
    assert_eq!(file_name("/a/.."), None);
    assert_eq!(file_name("C:\\x\\y"), Some("y".to_string()));
}

#[test]
fn join_puts_a_separator_between() {
    assert_eq!(join("/a", "b"), "/a/b");
    assert_eq!(join("/a/", "b"), "/a/b");
    assert_eq!(join("", "b"), "b");
    assert_eq!(join("a", "b"), "a/b");
    assert_eq!(join("C:\\x", "y"), "C:\\x\\y");
    assert_eq!(join("/a", ""), "/a/");
}

#[test]
fn rebase_moves_a_path_and_back() {
    assert_eq!(rebase("/src/a/b.rs", "/src", "/tmp/x"), Some("/tmp/x/a/b.rs".to_string()));
    assert_eq!(rebase("/tmp/x/a/b.rs", "/tmp/x", "/src"), Some("/src/a/b.rs".to_string()));
    assert_eq!(rebase("/src", "/src", "/tmp/x"), Some("/tmp/x".to_string()));
    assert_eq!(rebase("/src/", "/src", "/tmp/x"), Some("/tmp/x/".to_string()));
    assert_eq!(rebase("/srcs/a.rs", "/src", "/tmp/x"), None);
    assert_eq!(rebase("/other/a.rs", "/src", "/tmp/x"), None);
    assert_eq!(rebase("/sr", "/src", "/tmp/x"), None);
    assert_eq!(rebase("/a.rs", "", "/tmp/x"), Some("/tmp/x/a.rs".to_string()));
    assert_eq!(rebase("/proj/src/a.rs", "/proj/", "/t"), Some("/t/src/a.rs".to_string()));
    assert_eq!(rebase("/proj/src/a.rs", "/proj", "/t/"), Some("/t/src/a.rs".to_string()));
    assert_eq!(rebase("/t/src/a.rs", "/t/", "/proj/"), Some("/proj/src/a.rs".to_string()));
    assert_eq!(rebase("/a.rs", "/", "/t"), Some("/t/a.rs".to_string()));
    assert_eq!(rebase("/t/a.rs", "/t", "/"), Some("/a.rs".to_string()));
    assert_eq!(rebase("/proj", "/proj//", "/t"), Some("/t".to_string()));
    assert_eq!(rebase("/project/a.rs", "/proj/", "/t"), None);
}

#[test]
fn suffix_and_equality_of_texts() {
    assert!(has_suffix("main.rs", ".rs"));
    assert!(has_suffix(".rs", ".rs"));
    assert!(!has_suffix("rs", ".rs"));
    assert!(!has_suffix("main.rss", ".rs"));
    assert!(has_suffix("x", ""));
    assert!(same_text("é", "é"));
    assert!(!same_text("a", "b"));
    assert!(!same_text("a", "ab"));
}

#[test]
fn root_of_a_bare_manifest_name_is_the_empty_path() {
    let existing = listing(&["", "Cargo.toml"]);
    let manifest = MakepadManifestFile::from_dir("", &existing).unwrap();
    assert_eq!(manifest.path(), "Cargo.toml");
    assert_eq!(manifest_root(&manifest), Ok(String::new()));
    let _unused: Option<DirectoryError> = None;
}
