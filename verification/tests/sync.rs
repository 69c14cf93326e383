use std::sync::Arc;

use makepad_analyzer::concurrent::Lookup;
use makepad_analyzer::document::Position;
use makepad_analyzer::documents::Documents;
use makepad_analyzer::errors::{DirectoryError, DocumentError, MakepadAnalyzerError};
use makepad_analyzer::session::{get_project_files, is_rust_file, Session};
use makepad_analyzer::session_manager::{Resolution, SessionManager};
use makepad_analyzer::sync::{
    convert_url, is_mirrored_file, is_mirrored_name, mirror_directories, mirror_plan, SyncWorkspace,
};
use makepad_analyzer::uri::{get_path_from_url, get_url_from_path};

fn strings(items: &[&str]) -> Vec<String> {
    items.iter().map(|item| item.to_string()).collect()
}

fn app_files() -> Vec<String> {
    strings(&["/home/user/app/Cargo.toml", "/home/user/Cargo.lock", "/home/user/app/src/main.rs"])
}

fn workspace() -> SyncWorkspace {
    let mut sync = SyncWorkspace::new();
    assert_eq!(
        sync.create_temp_dir_from_workspace(
            "/home/user/app/src/main.rs",
            &app_files(),
            "/tmp/makepad-abc"
        ),
        Ok(())
    );
    sync
}

#[test]
fn an_empty_workspace_fails_every_operation() {
    let sync = SyncWorkspace::new();
    assert_eq!(sync.manifest_dir(), Err(DirectoryError::ManifestDirNotFound));
    assert_eq!(sync.temp_dir(), Err(DirectoryError::TempDirNotFound));
    assert_eq!(sync.manifest_path(), None);
    assert_eq!(sync.temp_manifest_path(), None);
    assert_eq!(sync.resync(&strings(&["a.rs"])), Err(DirectoryError::ManifestDirNotFound));
    assert_eq!(
        sync.workspace_to_temp_url("file:///home/user/app/a.rs"),
        Err(DirectoryError::TempDirNotFound)
    );
    assert_eq!(
        sync.temp_to_workspace_url("file:///tmp/x/a.rs"),
        Err(DirectoryError::ManifestDirNotFound)
    );
}

#[test]
fn directories_are_set_together() {
    let sync = workspace();
    assert_eq!(sync.manifest_dir(), Ok("/home/user/app".to_string()));
    assert_eq!(sync.temp_dir(), Ok("/tmp/makepad-abc/app".to_string()));
    assert_eq!(sync.manifest_path(), Some("/home/user/app/Cargo.toml".to_string()));
    assert_eq!(sync.temp_manifest_path(), Some("/tmp/makepad-abc/app/Cargo.toml".to_string()));
    let copy = sync.clone();
    assert_eq!(copy.temp_dir(), Ok("/tmp/makepad-abc/app".to_string()));
}

#[test]
fn a_project_without_a_name_sets_nothing() {
    let mut sync = SyncWorkspace::new();
    assert_eq!(
        sync.create_temp_dir_from_workspace("/a.rs", &strings(&["/Cargo.toml"]), "/tmp/x"),
        Err(MakepadAnalyzerError::DirectoryError(DirectoryError::CantExtractProjectName {
            dir: "/".to_string()
        }))
    );
    assert_eq!(sync.manifest_dir(), Err(DirectoryError::ManifestDirNotFound));
    assert_eq!(sync.temp_dir(), Err(DirectoryError::TempDirNotFound));
    assert_eq!(
        SyncWorkspace::project_name(""),
        Err(DirectoryError::CantExtractProjectName { dir: String::new() })
    );
    assert_eq!(SyncWorkspace::project_name("/a/robrix/"), Ok("robrix".to_string()));
}

#[test]
fn a_project_without_a_manifest_sets_nothing() {
    let mut sync = workspace();
    assert_eq!(
        sync.create_temp_dir_from_workspace("/w/src/a.rs", &app_files(), "/tmp/other"),
        Err(MakepadAnalyzerError::DocumentError(DocumentError::ManifestFileNotFound {
            dir: "/w/src/a.rs".to_string()
        }))
    );
    assert_eq!(sync.manifest_dir(), Ok("/home/user/app".to_string()));
    assert_eq!(sync.temp_dir(), Ok("/tmp/makepad-abc/app".to_string()));
}

#[test]
fn the_walk_starts_at_the_path_given() {
    assert_eq!(
        SyncWorkspace::locate("/home/user/app", &app_files(), "/tmp/t"),
        Ok(("/home/user/app".to_string(), "/tmp/t/app".to_string()))
    );
    assert_eq!(
        SyncWorkspace::locate("/home/user/app/gone/deeper/x.rs", &app_files(), "/tmp/t/"),
        Ok(("/home/user/app".to_string(), "/tmp/t/app".to_string()))
    );
}

#[test]
fn identifiers_with_escapes_come_back() {
    let sync = workspace();
    let id = "file:///home/user/app/src/my%20file.rs";
    let sandbox = sync.workspace_to_temp_url(id).unwrap();
    assert_eq!(sandbox, "file:///tmp/makepad-abc/app/src/my%20file.rs");
    assert_eq!(sync.temp_to_workspace_url(&sandbox), Ok(id.to_string()));
}

#[test]
fn a_base_that_ends_in_a_separator_has_its_files_below_it() {
    assert_eq!(
        convert_url("file:///proj/src/a.rs", "/t", "/proj/"),
        Ok("file:///t/src/a.rs".to_string())
    );
    assert_eq!(
        convert_url("file:///t/src/a.rs", "/proj/", "/t"),
        Ok("file:///proj/src/a.rs".to_string())
    );
}

#[test]
fn url_round_trip() {
    let sync = workspace();
    let id = "file:///home/user/app/src/main.rs";
    let sandbox = sync.workspace_to_temp_url(id).unwrap();
    assert_eq!(sandbox, "file:///tmp/makepad-abc/app/src/main.rs");
    assert_eq!(sync.temp_to_workspace_url(&sandbox), Ok(id.to_string()));
}

#[test]
fn url_outside_the_roots_is_no_descendant() {
    let sync = workspace();
    assert_eq!(
        sync.workspace_to_temp_url("file:///home/user/other/a.rs"),
        Err(DirectoryError::StripPrefixError { path: "/home/user/other/a.rs".to_string() })
    );
    assert_eq!(
        sync.workspace_to_temp_url("file:///home/user/application/a.rs"),
        Err(DirectoryError::StripPrefixError { path: "/home/user/application/a.rs".to_string() })
    );
    assert_eq!(
        sync.temp_to_workspace_url("file:///home/user/app/a.rs"),
        Err(DirectoryError::StripPrefixError { path: "/home/user/app/a.rs".to_string() })
    );
}

#[test]
fn convert_url_reports_each_failure() {
    assert_eq!(
        convert_url("not a url", "/to", "/from"),
        Err(DirectoryError::PathFromUrlFailed { url: "not a url".to_string() })
    );
    assert_eq!(
        convert_url("file:///from/a.rs", "relative", "/from"),
        Err(DirectoryError::UrlFromPathFailed { path: "relative/a.rs".to_string() })
    );
    assert_eq!(convert_url("file:///from/a.rs", "/to", "/from"), Ok("file:///to/a.rs".to_string()));
}

#[test]
fn urls_and_paths() {
    assert_eq!(get_url_from_path("/tmp/foo.txt"), Ok("file:///tmp/foo.txt".to_string()));
    assert_eq!(
        get_url_from_path("../foo.txt"),
        Err(DirectoryError::UrlFromPathFailed { path: "../foo.txt".to_string() })
    );
    assert_eq!(get_path_from_url("file:///tmp/my%20file.rs"), Ok("/tmp/my file.rs".to_string()));
    assert_eq!(
        get_path_from_url("https://example.com/a"),
        Err(DirectoryError::PathFromUrlFailed { url: "https://example.com/a".to_string() })
    );
}

#[test]
fn mirror_takes_matching_files_only() {
    assert!(is_mirrored_name("main.rs"));
    assert!(is_mirrored_name("Cargo.toml"));
    assert!(is_mirrored_name("Cargo.lock"));
    assert!(!is_mirrored_name("README.md"));
    assert!(!is_mirrored_name("cargo.toml"));
    assert!(is_mirrored_file("src/deep/mod.rs"));
    assert!(!is_mirrored_file("src/"));
    let files = strings(&[
        "Cargo.toml",
        "README.md",
        "src/main.rs",
        "src/ui/app.rs",
        "assets/logo.png",
        "assets/fonts/a.ttf",
        "Cargo.lock",
    ]);
    let plan = mirror_plan(&files);
    assert_eq!(plan, strings(&["Cargo.toml", "src/main.rs", "src/ui/app.rs", "Cargo.lock"]));
    // no directory is planned for the subtree that holds no matching file
    assert_eq!(mirror_directories(&plan), strings(&["", "src", "src/ui", ""]));
}

#[test]
fn resync_plans_each_copy() {
    let sync = workspace();
    let copies = sync.resync(&strings(&["src/main.rs", "notes.txt"])).unwrap();
    assert_eq!(
        copies,
        vec![(
            "/home/user/app/src/main.rs".to_string(),
            "/tmp/makepad-abc/app/src/main.rs".to_string()
        )]
    );
    assert_eq!(sync.resync(&strings(&["notes.txt"])), Ok(vec![]));
}

#[test]
fn lookup_outcome_of_a_directory() {
    assert_eq!(
        SyncWorkspace::lookup_outcome(Lookup::Present("/a".to_string()), DirectoryError::TempDirNotFound),
        Ok("/a".to_string())
    );
    assert_eq!(
        SyncWorkspace::lookup_outcome(Lookup::Locked, DirectoryError::TempDirNotFound),
        Err(DirectoryError::TempDirNotFound)
    );
    assert_eq!(
        SyncWorkspace::lookup_outcome(Lookup::Absent, DirectoryError::ManifestDirNotFound),
        Err(DirectoryError::ManifestDirNotFound)
    );
}

#[test]
fn source_files_of_a_tree() {
    assert!(is_rust_file("/a/b.rs", true));
    assert!(!is_rust_file("/a/b.rs", false));
    assert!(!is_rust_file("/a/.rs", true));
    assert!(!is_rust_file("/a/Cargo.toml", true));
    let entries = vec![
        ("/t/Cargo.toml".to_string(), true),
        ("/t/src".to_string(), false),
        ("/t/src/main.rs".to_string(), true),
        ("/t/dir.rs".to_string(), false),
        ("/t/src/lib.rs".to_string(), true),
    ];
    assert_eq!(
        get_project_files(&entries),
        strings(&["/t/Cargo.toml", "/t/src/main.rs", "/t/src/lib.rs"])
    );
    let others = vec![
        ("README.md".to_string(), true),
        ("Cargo.lock".to_string(), true),
        ("Cargo.lock".to_string(), false),
        ("assets/logo.png".to_string(), true),
    ];
    assert_eq!(get_project_files(&others), strings(&["Cargo.lock"]));
}

#[test]
fn session_liveness_and_completion() {
    let mut session = Session::new();
    assert!(session.is_active());
    session.mark_inactived();
    assert!(!session.is_active());
    let items = session
        .completion_items("file:///a.rs", Position { line: 0, character: 3 }, ".")
        .unwrap();
    assert_eq!(items.len(), 2);
    assert_eq!(items[0].label, "Hello");
    assert_eq!(items[1].label, "World");
    assert_eq!(
        Session::shifted_position(Position { line: 4, character: 3 }, "."),
        Some(Position { line: 4, character: 1 })
    );
    assert_eq!(Session::shifted_position(Position { line: 4, character: 1 }, "."), None);
    assert_eq!(
        Session::shifted_position(Position { line: 0, character: 1 }, ""),
        Some(Position { line: 0, character: 0 })
    );
}

#[test]
fn session_init_reports_a_nameless_project() {
    let mut session = Session::new();
    let mut documents = Documents::new();
    assert_eq!(
        session.init(
            "/a.rs",
            &strings(&["/Cargo.toml"]),
            "/tmp/x",
            vec![("a.rs".to_string(), Ok("fn a() {}".to_string()))],
            &mut documents
        ),
        Err(MakepadAnalyzerError::DirectoryError(DirectoryError::CantExtractProjectName {
            dir: "/".to_string()
        }))
    );
    assert!(session.is_active());
    assert_eq!(session.sync().manifest_dir(), Err(DirectoryError::ManifestDirNotFound));
    assert!(!documents.contains("/tmp/x/a.rs"));
}

#[test]
fn session_init_loads_every_mirrored_file() {
    let mut session = Session::new();
    let mut documents = Documents::new();
    let files = vec![
        ("Cargo.toml".to_string(), Ok("[package]".to_string())),
        ("README.md".to_string(), Ok("read me".to_string())),
        ("src/main.rs".to_string(), Ok("fn main() {}\n".to_string())),
        ("Cargo.lock".to_string(), Ok(String::new())),
    ];
    assert_eq!(
        session.init("/home/user/app/src/main.rs", &app_files(), "/tmp/m", files, &mut documents),
        Ok("/home/user/app".to_string())
    );
    assert_eq!(session.sync().temp_dir(), Ok("/tmp/m/app".to_string()));
    let main = documents.get_text_document("/tmp/m/app/src/main.rs").unwrap();
    assert_eq!(main.get_text(), "fn main() {}\n");
    assert_eq!(main.version(), 1);
    assert_eq!(main.get_uri(), "/tmp/m/app/src/main.rs");
    assert_eq!(documents.get_text_document("/tmp/m/app/Cargo.toml").unwrap().get_text(), "[package]");
    assert!(documents.contains("/tmp/m/app/Cargo.lock"));
    assert!(!documents.contains("/tmp/m/app/README.md"));
    assert!(!documents.contains("src/main.rs"));
}

#[test]
fn session_init_stops_at_the_first_file_that_was_not_read() {
    let mut session = Session::new();
    let mut documents = Documents::new();
    let files = vec![
        ("src/a.rs".to_string(), Ok("a".to_string())),
        ("src/b.rs".to_string(), Err(DocumentError::DocumentNotFound { path: "src/b.rs".to_string() })),
        ("src/c.rs".to_string(), Ok("c".to_string())),
    ];
    assert_eq!(
        session.init("/home/user/app", &app_files(), "/tmp/m", files, &mut documents),
        Err(MakepadAnalyzerError::DocumentError(DocumentError::DocumentNotFound {
            path: "src/b.rs".to_string()
        }))
    );
    assert!(documents.contains("/tmp/m/app/src/a.rs"));
    assert!(!documents.contains("/tmp/m/app/src/b.rs"));
    assert!(!documents.contains("/tmp/m/app/src/c.rs"));
}

#[test]
fn mirrored_files_are_put_under_the_sandbox() {
    let files = vec![
        ("notes.txt".to_string(), Ok("n".to_string())),
        ("src/lib.rs".to_string(), Ok("l".to_string())),
    ];
    assert_eq!(
        Session::mirrored_files(files, "/tmp/s"),
        vec![("/tmp/s/src/lib.rs".to_string(), Ok("l".to_string()))]
    );
}

#[test]
fn resolution_asks_for_what_is_missing() {
    let mut manager = SessionManager::builder().with_cache_capacity(2).build();
    let uri = "file:///home/user/app/src/main.rs";
    match manager.uri_and_session_from_workspace(uri) {
        Resolution::NeedRoot(path) => assert_eq!(path, "/home/user/app/src/main.rs"),
        _ => panic!("the root is not known yet"),
    }
    let existing = app_files();
    assert_eq!(
        manager.remember_root(uri, "/home/user/app/src/main.rs", &existing),
        Ok("/home/user/app".to_string())
    );
    match manager.uri_and_session_from_workspace(uri) {
        Resolution::NeedSession(root) => assert_eq!(root, "/home/user/app"),
        _ => panic!("the session is not there yet"),
    }
    assert_eq!(
        manager.open_session(
            "/home/user/app",
            &existing,
            "/tmp/makepad-abc",
            vec![("src/main.rs".to_string(), Ok("fn main() {}".to_string()))]
        ),
        Ok("/home/user/app".to_string())
    );
    assert_eq!(manager.cache().len(), 1);
    assert_eq!(
        manager.documents().get_text_document("/tmp/makepad-abc/app/src/main.rs").unwrap().get_text(),
        "fn main() {}"
    );
    match manager.uri_and_session_from_workspace(uri) {
        Resolution::Ready(sandbox, found) => {
            assert_eq!(sandbox, "file:///tmp/makepad-abc/app/src/main.rs");
            assert!(found.is_active());
            assert_eq!(found.sync().manifest_dir(), Ok("/home/user/app".to_string()));
        },
        _ => panic!("the session is there"),
    }
}

#[test]
fn a_session_that_could_not_be_set_up_is_not_cached() {
    let mut manager = SessionManager::builder().build();
    assert_eq!(
        manager.open_session("/w/a.rs", &app_files(), "/tmp/t", Vec::new()),
        Err(MakepadAnalyzerError::DocumentError(DocumentError::ManifestFileNotFound {
            dir: "/w/a.rs".to_string()
        }))
    );
    assert_eq!(manager.cache().len(), 0);
    manager.handle_open_file("/tmp/t/app/src/main.rs", Ok("held".to_string()));
    assert_eq!(
        manager.open_session(
            "/home/user/app",
            &app_files(),
            "/tmp/t",
            vec![("src/main.rs".to_string(), Ok("new".to_string()))]
        ),
        Err(MakepadAnalyzerError::DocumentError(DocumentError::DocumentAlreadyStored {
            path: "/tmp/t/app/src/main.rs".to_string()
        }))
    );
    assert_eq!(manager.cache().len(), 0);
    assert_eq!(
        manager.documents().get_text_document("/tmp/t/app/src/main.rs").unwrap().get_text(),
        "held"
    );
}

#[test]
fn a_session_without_directories_fails_the_resolution() {
    let mut manager = SessionManager::builder().build();
    let uri = "file:///home/user/app/src/main.rs";
    manager.remember_root(uri, "/home/user/app/src/main.rs", &app_files()).unwrap();
    manager.adopt_session("/home/user/app".to_string(), Arc::new(Session::new()));
    assert!(matches!(
        manager.uri_and_session_from_workspace(uri),
        Resolution::Failed(MakepadAnalyzerError::DirectoryError(DirectoryError::TempDirNotFound))
    ));
}

#[test]
fn resolution_fails_without_a_manifest_and_caches_nothing() {
    let mut manager = SessionManager::builder().build();
    let uri = "file:///w/a.rs";
    assert_eq!(
        manager.remember_root(uri, "/w/a.rs", &strings(&["/other/Cargo.toml"])),
        Err(MakepadAnalyzerError::DocumentError(DocumentError::ManifestFileNotFound {
            dir: "/w/a.rs".to_string()
        }))
    );
    assert!(matches!(manager.uri_and_session_from_workspace(uri), Resolution::NeedRoot(_)));
    assert!(matches!(
        manager.uri_and_session_from_workspace("no url"),
        Resolution::Failed(MakepadAnalyzerError::DirectoryError(
            DirectoryError::PathFromUrlFailed { .. }
        ))
    ));
    assert_eq!(manager.cache().capacity(), 7);
    assert_eq!(manager.auto_cleanup_interval(), 3600);
}

#[test]
fn manager_keeps_the_documents() {
    let mut manager = SessionManager::builder().build();
    manager.handle_open_file("/t/a.rs", Ok("abc".to_string()));
    assert!(manager.documents().contains("/t/a.rs"));
    let change = makepad_analyzer::document::ContentChange { range: None, text: "x".to_string() };
    assert_eq!(manager.write_changes_to_file("/t/a.rs", &vec![change]), Ok("x".to_string()));
    assert_eq!(
        manager.store_project_files(vec![
            ("/t/b.rs".to_string(), Ok("b".to_string())),
            ("/t/a.rs".to_string(), Ok("again".to_string())),
        ]),
        Err(MakepadAnalyzerError::DocumentError(DocumentError::DocumentAlreadyStored {
            path: "/t/a.rs".to_string()
        }))
    );
    assert!(manager.documents().contains("/t/b.rs"));
    assert_eq!(manager.documents().get_text_document("/t/a.rs").unwrap().get_text(), "x");
    assert_eq!(manager.remove_document("/t/b.rs").unwrap().get_text(), "b");
    assert!(manager.remove_document("/t/b.rs").is_err());
}

#[test]
fn manifest_file_of_a_lookup() {
    assert_eq!(
        SyncWorkspace::manifest_in(Ok("/home/user/app".to_string())),
        Some("/home/user/app/Cargo.toml".to_string())
    );
    assert_eq!(SyncWorkspace::manifest_in(Err(DirectoryError::ManifestDirNotFound)), None);
    assert_eq!(SyncWorkspace::manifest_in(Err(DirectoryError::TempDirNotFound)), None);
}

#[test]
fn a_root_that_was_noted_stays() {
    let mut manager = SessionManager::builder().build();
    let uri = "file:///home/user/app/src/main.rs";
    assert_eq!(
        manager.remember_root(uri, "/home/user/app/src/main.rs", &app_files()),
        Ok("/home/user/app".to_string())
    );
    assert_eq!(
        manager.remember_root(uri, "/elsewhere/src/main.rs", &strings(&["/elsewhere/Cargo.toml"])),
        Ok("/home/user/app".to_string())
    );
    assert_eq!(
        manager.remember_root(uri, "/nowhere/a.rs", &Vec::new()),
        Ok("/home/user/app".to_string())
    );
    match manager.uri_and_session_from_workspace(uri) {
        Resolution::NeedSession(root) => assert_eq!(root, "/home/user/app"),
        _ => panic!("the session is not there yet"),
    }
}

#[test]
fn a_project_has_one_session() {
    let mut manager = SessionManager::builder().with_cache_capacity(2).build();
    let first = vec![("src/main.rs".to_string(), Ok("one".to_string()))];
    let second = vec![("src/main.rs".to_string(), Ok("two".to_string()))];
    assert_eq!(
        manager.open_session("/home/user/app", &app_files(), "/tmp/first", first),
        Ok("/home/user/app".to_string())
    );
    assert_eq!(
        manager.open_session("/home/user/app/src/main.rs", &app_files(), "/tmp/second", second),
        Ok("/home/user/app".to_string())
    );
    assert_eq!(manager.cache().len(), 1);
    let session = manager.session_of_root("/home/user/app").unwrap();
    assert_eq!(session.sync().temp_dir(), Ok("/tmp/first/app".to_string()));
    assert!(manager.documents().contains("/tmp/first/app/src/main.rs"));
    assert!(!manager.documents().contains("/tmp/second/app/src/main.rs"));
}
