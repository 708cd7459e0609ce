use superhq::review::changes_tab::FileStatus;
use superhq::review::watcher::{
    build_ignore_matcher, classify_changes, relevant_events, EventBatch, HostProbe,
};
use superhq::text_map::TextMap;

fn dirty(entries: &[(&str, u8)]) -> TextMap<u8> {
    let mut map = TextMap::new();
    for (path, kind) in entries {
        map.insert(path, *kind);
    }
    map
}

fn probes(entries: &[(&str, HostProbe)]) -> TextMap<HostProbe> {
    let mut map = TextMap::new();
    for (path, probe) in entries {
        map.insert(path, *probe);
    }
    map
}

#[test]
fn modify_existing_file_is_modified() {
    let mut cache = TextMap::new();
    let result = classify_changes(
        &dirty(&[("src/main.rs", shuru_proto::watch_kind::MODIFY)]),
        &probes(&[("src/main.rs", HostProbe::Found)]),
        true,
        &mut cache,
    );
    assert_eq!(result.updated_files.get("src/main.rs"), Some(FileStatus::Modified));
}

#[test]
fn modify_missing_file_is_added() {
    let mut cache = TextMap::new();
    let result = classify_changes(
        &dirty(&[("src/new.rs", shuru_proto::watch_kind::MODIFY)]),
        &probes(&[("src/new.rs", HostProbe::NotFound)]),
        true,
        &mut cache,
    );
    assert_eq!(result.updated_files.get("src/new.rs"), Some(FileStatus::Added));
}

#[test]
fn delete_existing_file_is_deleted() {
    let mut cache = TextMap::new();
    let result = classify_changes(
        &dirty(&[("src/main.rs", shuru_proto::watch_kind::DELETE)]),
        &probes(&[("src/main.rs", HostProbe::Found)]),
        true,
        &mut cache,
    );
    assert_eq!(result.updated_files.get("src/main.rs"), Some(FileStatus::Deleted));
}

#[test]
fn delete_missing_file_goes_to_removed_paths() {
    let mut cache = TextMap::new();
    let result = classify_changes(
        &dirty(&[("src/gone.rs", shuru_proto::watch_kind::DELETE)]),
        &probes(&[("src/gone.rs", HostProbe::NotFound)]),
        true,
        &mut cache,
    );
    assert_eq!(result.updated_files.len(), 0);
    assert!(result.removed_paths.contains("src/gone.rs"));
}

#[test]
fn scratch_workspace_modify_is_added() {
    let mut cache = TextMap::new();
    let result = classify_changes(
        &dirty(&[("src/main.rs", shuru_proto::watch_kind::MODIFY)]),
        &probes(&[]),
        false,
        &mut cache,
    );
    assert_eq!(result.updated_files.get("src/main.rs"), Some(FileStatus::Added));
}

#[test]
fn permission_denied_is_not_misclassified_as_added() {
    let mut cache = TextMap::new();
    let result = classify_changes(
        &dirty(&[("locked/main.rs", shuru_proto::watch_kind::MODIFY)]),
        &probes(&[("locked/main.rs", HostProbe::Failed)]),
        true,
        &mut cache,
    );
    assert_eq!(
        result.updated_files.get("locked/main.rs"),
        Some(FileStatus::Modified),
        "permission-denied stat must not downgrade to Added",
    );
}

#[test]
fn repeated_delete_is_suppressed_from_updated_files() {
    let mut cache = TextMap::new();
    cache.insert("src/main.rs", FileStatus::Deleted);
    let result = classify_changes(
        &dirty(&[("src/main.rs", shuru_proto::watch_kind::DELETE)]),
        &probes(&[("src/main.rs", HostProbe::Found)]),
        true,
        &mut cache,
    );
    assert!(result.updated_files.len() == 0, "repeat DELETE must not re-emit an update");
    assert!(!result.is_news());
}

#[test]
fn deletion_wins_over_later_events() {
    let mut batch = EventBatch::new();
    batch.push("/workspace/a", shuru_proto::watch_kind::MODIFY);
    batch.push("/workspace/a", shuru_proto::watch_kind::DELETE);
    batch.push("/workspace/a", shuru_proto::watch_kind::MODIFY);
    batch.push("/workspace/b", shuru_proto::watch_kind::CREATE);
    batch.push("/workspace/b", shuru_proto::watch_kind::MODIFY);
    assert_eq!(batch.raw.get("/workspace/a"), Some(shuru_proto::watch_kind::DELETE));
    assert_eq!(batch.raw.get("/workspace/b"), Some(shuru_proto::watch_kind::CREATE));
}

#[test]
fn ignored_and_foreign_paths_are_left_out() {
    let project = vec!["\u{feff}*.log".to_string(), "/secret".to_string(), "!keep.log".to_string()];
    let global = vec!["*.swp".to_string()];
    let matcher = build_ignore_matcher(Some("/host"), &project, &global).unwrap();
    assert!(matcher.ignores("node_modules/x/index.js"));
    assert!(matcher.ignores(".git/config"));
    assert!(matcher.ignores("target/debug/app"));
    assert!(matcher.ignores("deep/a.log"));
    assert!(!matcher.ignores("keep.log"));
    assert!(matcher.ignores("secret"));
    assert!(!matcher.ignores("deep/secret"));
    assert!(matcher.ignores("x.swp"));
    assert!(!matcher.ignores("src/main.rs"));
    let mut batch = EventBatch::new();
    batch.push("/workspace/src/main.rs", shuru_proto::watch_kind::MODIFY);
    batch.push("/workspace/a.log", shuru_proto::watch_kind::MODIFY);
    batch.push("/elsewhere/b.rs", shuru_proto::watch_kind::MODIFY);
    let dirty = relevant_events(&batch, "/workspace", &matcher);
    assert_eq!(dirty.len(), 1);
    assert_eq!(dirty.get("src/main.rs"), Some(shuru_proto::watch_kind::MODIFY));
}

#[test]
fn builtin_patterns_hold_whatever_the_files_say() {
    let project = vec![
        "!node_modules".to_string(),
        "!*.js".to_string(),
        "# dist".to_string(),
        "".to_string(),
        "*.tmp  ".to_string(),
    ];
    let matcher = build_ignore_matcher(Some("/host"), &project, &vec![]).unwrap();
    assert!(matcher.ignores("node_modules/x.js"));
    assert!(matcher.ignores("a/node_modules/x.js"));
    assert!(!matcher.ignores("x.js"));
    assert!(matcher.ignores("a.tmp"));
    let none = build_ignore_matcher(None, &vec![], &vec![]).unwrap();
    assert!(none.ignores("build/out"));
    assert!(!none.ignores("built"));
}

#[test]
fn roots_are_taken_as_they_are_written() {
    for root in ["./here", "here", ".", "./", "", "/"] {
        let matcher =
            build_ignore_matcher(Some(root), &vec!["/top".to_string()], &vec![]).unwrap();
        assert!(matcher.ignores("top"), "{root}");
        assert!(matcher.ignores("d/.git/config"), "{root}");
        assert!(!matcher.ignores("d/top"), "{root}");
    }
}
