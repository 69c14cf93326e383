use std::sync::Arc;

use makepad_analyzer::documents::Documents;
use makepad_analyzer::lru_session_cache::LRUSessionCache;
use makepad_analyzer::session::Session;
use makepad_analyzer::session_manager::SessionManager;

#[test]
fn test_lru_session_cache_capacity() {
    let mut cache = LRUSessionCache::new(2);
    let path1 = String::from("/path/session1");
    let path2 = String::from("/path/session2");
    let path3 = String::from("/path/session3");

    let session1 = Arc::new(Session::new());
    let session2 = Arc::new(Session::new());
    let session3 = Arc::new(Session::new());

    cache.insert(path1.clone(), session1.clone());
    cache.insert(path2.clone(), session2.clone());
    cache.insert(path3.clone(), session3.clone());

    assert!(cache.get(&path1).is_none());
    assert!(Arc::ptr_eq(&cache.get(&path2).unwrap(), &session2));
    assert!(Arc::ptr_eq(&cache.get(&path3).unwrap(), &session3));
}

#[test]
fn test_lru_session_cache_insertion_and_find() {
    let mut cache = LRUSessionCache::new(2);
    let path1 = String::from("/path/session1");
    let path2 = String::from("/path/session2");

    let session1 = Arc::new(Session::new());
    let session2 = Arc::new(Session::new());

    cache.insert(path1.clone(), session1.clone());
    cache.insert(path2.clone(), session2.clone());

    assert!(Arc::ptr_eq(&cache.get(&path1).unwrap(), &session1));
    assert!(Arc::ptr_eq(&cache.get(&path2).unwrap(), &session2));
}

#[test]
fn test_lru_session_cache_update_order() {
    let mut cache = LRUSessionCache::new(2);
    let path1 = String::from("/path/session1");
    let path2 = String::from("/path/session2");
    let path3 = String::from("/path/session3");

    let session1 = Arc::new(Session::new());
    let session2 = Arc::new(Session::new());
    let session3 = Arc::new(Session::new());

    cache.insert(path1.clone(), session1.clone());
    cache.insert(path2.clone(), session2.clone());

    cache.get(&path1);

    cache.insert(path3.clone(), session3.clone());

    assert!(cache.get(&path1).is_some());
    assert!(cache.get(&path2).is_none());
    assert!(cache.get(&path3).is_some());
}

#[test]
fn promoted_key_outlives_the_next_eviction() {
    let mut cache = LRUSessionCache::new(2);
    for key in ["A", "B", "C"] {
        cache.insert(key.to_string(), Arc::new(Session::new()));
    }
    assert!(cache.get("A").is_none());
    assert!(cache.get("B").is_some());
    assert!(cache.get("C").is_some());
    assert!(cache.get("B").is_some());
    cache.insert("D".to_string(), Arc::new(Session::new()));
    assert!(cache.get("C").is_none());
    assert!(cache.get("B").is_some());
    assert!(cache.get("D").is_some());
    assert_eq!(cache.len(), 2);
}

#[test]
fn one_key_too_many_evicts_the_first() {
    let capacity = 4;
    let mut cache = LRUSessionCache::new(capacity);
    for i in 0..capacity + 1 {
        cache.insert(format!("key{}", i), Arc::new(Session::new()));
    }
    assert_eq!(cache.len(), capacity);
    assert!(cache.get("key0").is_none());
    for i in 1..capacity + 1 {
        assert!(cache.get(&format!("key{}", i)).is_some());
    }
}

#[test]
fn insert_of_a_held_key_replaces_the_session() {
    let mut cache = LRUSessionCache::new(2);
    let first = Arc::new(Session::new());
    let second = Arc::new(Session::new());
    cache.insert("a".to_string(), first.clone());
    cache.insert("b".to_string(), Arc::new(Session::new()));
    cache.insert("a".to_string(), second.clone());
    assert_eq!(cache.len(), 2);
    assert!(Arc::ptr_eq(&cache.get("a").unwrap(), &second));
    assert!(cache.get("b").is_some());
}

#[test]
fn a_cache_without_room_holds_one_session() {
    let mut cache = LRUSessionCache::new(0);
    cache.insert("a".to_string(), Arc::new(Session::new()));
    assert_eq!(cache.len(), 1);
    cache.insert("b".to_string(), Arc::new(Session::new()));
    assert_eq!(cache.len(), 1);
    assert!(cache.get("a").is_none());
    assert!(cache.get("b").is_some());
}

#[test]
fn cleanup_removes_inactive_sessions_only() {
    let mut cache = LRUSessionCache::new(3);
    for key in ["a", "b", "c"] {
        cache.insert(key.to_string(), Arc::new(Session::new()));
    }
    // "c" is the most recently touched: recency does not save it
    cache.mark_session_inactived("c");
    cache.mark_session_inactived("a");
    cache.cleanup_sessions();
    assert_eq!(cache.len(), 1);
    assert!(cache.get("a").is_none());
    assert!(cache.get("c").is_none());
    assert!(cache.get("b").unwrap().is_active());
    cache.cleanup_sessions();
    assert_eq!(cache.len(), 1);
}

#[test]
fn marking_keeps_the_directories_of_a_session() {
    let mut session = Session::new();
    let mut documents = Documents::new();
    assert_eq!(
        session.init(
            "/home/user/app",
            &vec!["/home/user/app/Cargo.toml".to_string()],
            "/tmp/makepad-1",
            Vec::new(),
            &mut documents
        ),
        Ok("/home/user/app".to_string())
    );
    let mut cache = LRUSessionCache::new(2);
    cache.insert("/home/user/app".to_string(), Arc::new(session));
    cache.mark_session_inactived("/home/user/app");
    let marked = cache.get("/home/user/app").unwrap();
    assert!(!marked.is_active());
    assert_eq!(marked.sync().manifest_dir(), Ok("/home/user/app".to_string()));
    assert_eq!(marked.sync().temp_dir(), Ok("/tmp/makepad-1/app".to_string()));
}

#[test]
fn test_session_manager_builder() {
    let mut session_manager =
        SessionManager::builder().with_cache_capacity(5).with_auto_cleanup_interval(2).build();

    assert_eq!(session_manager.cache().capacity(), 5);
    assert_eq!(session_manager.auto_cleanup_interval(), 2);

    session_manager.stop();
    assert!(session_manager.is_stopped());
    session_manager.stop();
    assert!(session_manager.is_stopped());
}

#[test]
fn test_session_manager_auto_cleanup() {
    let mut session_manager =
        SessionManager::builder().with_cache_capacity(5).with_auto_cleanup_interval(2).build();

    for i in 0..5 {
        let path = format!("session_{}", i);
        let session = Arc::new(Session::new());
        session_manager.adopt_session(path, session);
    }

    let inactived_session_path1 = String::from("session_2");
    let inactived_session_path2 = String::from("session_4");

    assert!(session_manager.session_of_root(&inactived_session_path1).is_some());
    assert!(session_manager.session_of_root(&inactived_session_path2).is_some());

    session_manager.mark_session_inactived(&inactived_session_path1);
    assert!(session_manager.auto_cleanup_sessions());
    assert!(session_manager.session_of_root(&inactived_session_path1).is_none());

    session_manager.mark_session_inactived(&inactived_session_path2);
    assert!(session_manager.auto_cleanup_sessions());
    assert!(session_manager.session_of_root(&inactived_session_path2).is_none());
    assert_eq!(session_manager.cache().len(), 3);

    session_manager.stop();
    session_manager.mark_session_inactived("session_0");
    assert!(!session_manager.auto_cleanup_sessions());
    assert_eq!(session_manager.cache().len(), 3);
}
