use afdb_core::registry::Registry;

#[test]
fn register_unregister_tracks_entries() {
    let mut reg = Registry::new();
    reg.register("w1".to_string(), "/data/a.afdb".to_string());
    reg.register("w2".to_string(), "/data/b.afdb".to_string());
    // Re-registering a window overwrites its entry.
    reg.register("w1".to_string(), "/data/c.afdb".to_string());
    let wrote = reg.unregister(&"w2".to_string());
    assert!(wrote);
    let paths = reg.open_paths();
    assert_eq!(paths, vec!["/data/c.afdb".to_string()]);
    assert_eq!(
        reg.find_window_for_database(&"/data/c.afdb".to_string()),
        Some("w1".to_string())
    );
    assert_eq!(reg.find_window_for_database(&"/data/a.afdb".to_string()), None);
    assert_eq!(reg.find_window_for_database(&"/data/b.afdb".to_string()), None);
}

#[test]
fn unregister_absent_is_noop_but_still_writes() {
    let mut reg = Registry::new();
    reg.register("w1".to_string(), "/data/a.afdb".to_string());
    let wrote = reg.unregister(&"ghost".to_string());
    // The map is untouched but the snapshot write is still owed.
    assert!(wrote);
    assert_eq!(reg.open_paths(), vec!["/data/a.afdb".to_string()]);
}

#[test]
fn unregister_after_quit_suppresses_write() {
    let mut reg = Registry::new();
    reg.register("w1".to_string(), "/data/a.afdb".to_string());
    reg.register("w2".to_string(), "/data/b.afdb".to_string());
    assert!(!reg.quitting());
    reg.begin_quit();
    assert!(reg.quitting());
    // The quit sequence owns the final session write; a window closing
    // afterwards must not trigger another one.
    let wrote = reg.unregister(&"w1".to_string());
    assert!(!wrote);
    let wrote_again = reg.unregister(&"w2".to_string());
    assert!(!wrote_again);
    assert!(reg.quitting());
}

#[test]
fn quit_write_then_unregister_leaves_file_contents_unchanged() {
    // Model the persisted session file as a string slot: the quit path
    // writes it, and a later unregister writes only if the registry
    // says so.
    let mut reg = Registry::new();
    reg.register("w1".to_string(), "/data/a.afdb".to_string());
    reg.begin_quit();
    let paths = reg.open_paths();
    let geometry = afdb_core::session::collect_geometry(reg.entries(), &vec![None]);
    let mut file = afdb_core::session::session_file_contents(&paths, &geometry);
    let after_quit = file.clone();
    if reg.unregister(&"w1".to_string()) {
        let paths2 = reg.open_paths();
        let geometry2 = afdb_core::session::collect_geometry(reg.entries(), &vec![]);
        file = afdb_core::session::session_file_contents(&paths2, &geometry2);
    }
    assert_eq!(file, after_quit);
}

#[test]
fn find_on_empty_registry_returns_none() {
    let reg = Registry::new();
    assert_eq!(reg.find_window_for_database(&"/data/a.afdb".to_string()), None);
}

#[test]
fn find_uses_exact_string_equality() {
    let mut reg = Registry::new();
    reg.register("w1".to_string(), "/data/a.afdb".to_string());
    assert_eq!(reg.find_window_for_database(&"/data/A.afdb".to_string()), None);
    assert_eq!(reg.find_window_for_database(&"/data/a.afdb/".to_string()), None);
    assert_eq!(
        reg.find_window_for_database(&"/data/a.afdb".to_string()),
        Some("w1".to_string())
    );
}
