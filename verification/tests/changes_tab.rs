use superhq::review::changes_tab::{
    decide_row_action, empty_note, menu_copy, overflow_note, tab_header, total_stats, ChangesTab, FileStatus,
    RowAction, TabEffect,
};
use superhq::review::diff_engine::{compute_file_diff, DiffStats};
use superhq::review::diff_service::{DiffService, KeepAction};
use superhq::review::diff_view::{collect_lines, SelectionInner};
use superhq::review::watcher::DiffResult;
use superhq::review::SidePanel;
use superhq::text_map::TextMap;
use superhq::text_set::TextSet;

#[test]
fn suppressed_events_are_skipped() {
    let action = decide_row_action(FileStatus::Modified, Some(FileStatus::Added), true);
    assert_eq!(action, RowAction::Skip);
}

#[test]
fn new_added_file_is_added_immediately() {
    let action = decide_row_action(FileStatus::Added, None, false);
    assert_eq!(action, RowAction::AddNow);
}

#[test]
fn new_deleted_file_is_added_immediately() {
    let action = decide_row_action(FileStatus::Deleted, None, false);
    assert_eq!(action, RowAction::AddNow);
}

#[test]
fn new_modified_file_is_probed_first() {
    let action = decide_row_action(FileStatus::Modified, None, false);
    assert_eq!(action, RowAction::ProbeThenAdd);
}

#[test]
fn same_status_event_refreshes_content_only() {
    let action = decide_row_action(FileStatus::Added, Some(FileStatus::Added), false);
    assert_eq!(action, RowAction::RefreshContent);
}

#[test]
fn modified_after_modified_refreshes_content_only() {
    let action = decide_row_action(FileStatus::Modified, Some(FileStatus::Modified), false);
    assert_eq!(action, RowAction::RefreshContent);
}

#[test]
fn modified_event_on_modified_row_preserves_staging_path() {
    let action = decide_row_action(FileStatus::Modified, Some(FileStatus::Modified), false);
    assert_ne!(
        action,
        RowAction::RefreshWithStatusChange { new_status: FileStatus::Modified },
        "same-status events must take the staging-preserving path",
    );
    assert_eq!(action, RowAction::RefreshContent);
}

#[test]
fn status_transition_refreshes_with_status_change() {
    let action = decide_row_action(FileStatus::Deleted, Some(FileStatus::Added), false);
    assert_eq!(action, RowAction::RefreshWithStatusChange { new_status: FileStatus::Deleted });
}

#[test]
fn added_to_modified_uses_status_change_path() {
    let action = decide_row_action(FileStatus::Modified, Some(FileStatus::Added), false);
    assert_eq!(action, RowAction::RefreshWithStatusChange { new_status: FileStatus::Modified });
}

fn result(updates: &[(&str, FileStatus)], removed: &[&str]) -> DiffResult {
    let mut dirty_paths = TextSet::new();
    let mut updated_files = TextMap::new();
    let mut removed_paths = TextSet::new();
    for (path, status) in updates {
        dirty_paths.insert(path);
        updated_files.insert(path, *status);
    }
    for path in removed {
        dirty_paths.insert(path);
        removed_paths.insert(path);
    }
    DiffResult { dirty_paths, updated_files, removed_paths }
}

fn listed(tab: &ChangesTab) -> Vec<(String, FileStatus)> {
    (0..tab.changed_files.len())
        .map(|i| (tab.changed_files.key(i).to_string(), tab.changed_files.value(i)))
        .collect()
}

#[test]
fn results_add_update_and_remove_files() {
    let mut tab = ChangesTab::new();
    tab.service = Some(DiffService::new(7, None));
    let effects = tab.apply_results(&result(
        &[("a", FileStatus::Added), ("b", FileStatus::Deleted), ("c", FileStatus::Modified)],
        &[],
    ));
    assert_eq!(
        listed(&tab),
        vec![("a".to_string(), FileStatus::Added), ("b".to_string(), FileStatus::Deleted)]
    );
    assert_eq!(effects.len(), 1);
    assert!(matches!(&effects[0], TabEffect::Probe { path, .. } if path == "c"));
    assert_eq!(tab.sync_views(), vec!["a".to_string(), "b".to_string()]);
    let effects = tab.apply_results(&result(&[("a", FileStatus::Modified)], &["b"]));
    assert_eq!(listed(&tab), vec![("a".to_string(), FileStatus::Modified)]);
    assert!(matches!(&effects[0], TabEffect::UpdateStatus { path, .. } if path == "a"));
    assert!(!tab.file_views.contains("b"));
    let effects = tab.apply_results(&result(&[("a", FileStatus::Modified)], &[]));
    assert!(matches!(&effects[0], TabEffect::RefreshContent { path } if path == "a"));
}

#[test]
fn probe_adds_only_real_changes() {
    let mut tab = ChangesTab::new();
    let none = DiffStats { additions: 0, deletions: 0 };
    assert!(!tab.probe_finished("a", FileStatus::Modified, Some((none, false))));
    assert!(!tab.probe_finished("a", FileStatus::Modified, None));
    let some = DiffStats { additions: 1, deletions: 0 };
    assert!(tab.probe_finished("a", FileStatus::Modified, Some((some, false))));
    let binary = DiffStats { additions: 0, deletions: 0 };
    assert!(!tab.probe_finished("a", FileStatus::Modified, Some((binary, true))));
    tab.suppress_file("b");
    let some = DiffStats { additions: 1, deletions: 0 };
    assert!(!tab.probe_finished("b", FileStatus::Modified, Some((some, false))));
    assert_eq!(listed(&tab), vec![("a".to_string(), FileStatus::Modified)]);
}

#[test]
fn suppressed_file_comes_back_when_it_is_dirty_again() {
    let mut tab = ChangesTab::new();
    tab.suppress_file("a");
    assert!(tab.suppressed.contains("a"));
    tab.apply_results(&result(&[("a", FileStatus::Added)], &[]));
    assert!(!tab.suppressed.contains("a"));
    assert_eq!(listed(&tab), vec![("a".to_string(), FileStatus::Added)]);
}

#[test]
fn keeping_and_discarding_need_a_service() {
    let mut tab = ChangesTab::new();
    tab.apply_results(&result(&[("a", FileStatus::Added), ("b", FileStatus::Deleted)], &[]));
    assert!(tab.keep("a", FileStatus::Added).is_none());
    assert!(tab.discard("a").is_none());
    assert!(tab.take_all().is_none());
    tab.service = Some(DiffService::new(1, Some("/host".to_string())));
    match tab.keep("a", FileStatus::Added) {
        Some(KeepAction::CopyToHost { plan }) => {
            assert_eq!(plan.sandbox_path, "/workspace/a");
            assert_eq!(plan.host_path, "/host/a");
        }
        _ => panic!("expected a copy"),
    }
    match tab.keep("b", FileStatus::Deleted) {
        Some(KeepAction::DeleteHostFile { path }) => assert_eq!(path, "/host/b"),
        _ => panic!("expected a deletion"),
    }
    assert!(listed(&tab).is_empty());
    assert_eq!(tab.discard("c"), Some("/workspace/c".to_string()));
    assert!(matches!(tab.keep("../x", FileStatus::Added), Some(KeepAction::Nothing)));
    assert!(matches!(tab.keep(".git/config", FileStatus::Added), Some(KeepAction::Nothing)));
    tab.apply_results(&result(&[("d", FileStatus::Added)], &[]));
    let taken = tab.take_all().unwrap();
    assert_eq!(taken.len(), 1);
    assert_eq!(taken.key(0), "d");
    assert!(tab.suppressed.contains("d"));
}

#[test]
fn asking_the_agent_quotes_the_selection() {
    let mut tab = ChangesTab::new();
    tab.open_ask("src/a.rs".to_string(), "let x = 1;".to_string());
    assert!(tab.submit_ask("why?").is_none());
    assert!(tab.ask_agent.is_none());
    tab.open_ask("src/a.rs".to_string(), String::new());
    tab.close_ask();
    assert!(tab.ask_agent.is_none());
    tab.open_ask("src/a.rs".to_string(), "let x = 1;".to_string());
    tab.on_ask_agent = true;
    assert!(tab.submit_ask("why?").is_none());
    tab.open_ask("src/a.rs".to_string(), "let x = 1;".to_string());
    tab.on_ask_agent = false;
    assert_eq!(
        tab.submit_ask("why?"),
        Some("In `src/a.rs`:\n\n```\nlet x = 1;\n```\n\nwhy?\n".to_string())
    );
}

#[test]
fn menu_copies_or_asks_about_the_selection() {
    let lines = collect_lines(&compute_file_diff(b"", b"alpha\nbeta\n").hunks);
    let mut sel = SelectionInner::new();
    sel.begin(1, 2);
    sel.extend(2, 2);
    assert!(sel.right_click(1, 4, (3, 4)));
    assert_eq!(sel.context_menu, Some((3, 4)));
    assert_eq!(menu_copy(&mut sel, Some(&lines)), Some("pha\nbe".to_string()));
    assert_eq!(sel.context_menu, None);
    assert_eq!(menu_copy(&mut sel, None), None);
    sel.right_click(1, 4, (5, 6));
    let mut tab = ChangesTab::new();
    assert_eq!(tab.ask_about("a.txt", &mut sel, Some(&lines)), Some((5, 6)));
    assert_eq!(sel.context_menu, None);
    let ask = tab.ask_agent.as_ref().unwrap();
    assert_eq!((ask.file_path.as_str(), ask.selected_text.as_str()), ("a.txt", "pha\nbe"));
    assert!(!tab.ask_key("a"));
    assert!(tab.ask_agent.is_some());
    assert!(tab.ask_key("escape"));
    assert!(tab.ask_agent.is_none());
}

#[test]
fn rows_are_shown_up_to_a_limit() {
    let names: Vec<String> = (0..502).map(|i| format!("f{i}")).collect();
    let files: Vec<(&str, FileStatus)> =
        names.iter().map(|n| (n.as_str(), FileStatus::Added)).collect();
    let mut tab = ChangesTab::new();
    tab.apply_results(&result(&files, &[]));
    assert!(tab.visible_rows().is_empty());
    assert_eq!(tab.sync_views().len(), 502);
    let shown = tab.visible_rows();
    assert_eq!(shown.len(), 500);
    assert_eq!(shown[499], "f499");
    assert!(!tab.apply("f3"));
    tab.service = Some(DiffService::new(1, None));
    assert!(tab.apply("f3"));
    assert!(tab.suppressed.contains("f3"));
    assert_eq!(tab.visible_rows()[3], "f4");
}

#[test]
fn header_counts_files_and_lines() {
    assert!(tab_header(0, 0, 0).is_none());
    assert_eq!(empty_note(0), Some("No changes"));
    assert_eq!(empty_note(1), None);
    let one = tab_header(1, 0, 3).unwrap();
    assert_eq!(one.files, "1 file");
    assert_eq!(one.added, None);
    assert_eq!(one.removed, Some("-3".to_string()));
    let two = tab_header(2, 12, 0).unwrap();
    assert_eq!(two.files, "2 files");
    assert_eq!(two.added, Some("+12".to_string()));
    assert_eq!(overflow_note(500), None);
    assert_eq!(overflow_note(501), Some("and 1 more file...".to_string()));
    assert_eq!(overflow_note(503), Some("and 3 more files...".to_string()));
    let stats = vec![
        Some(DiffStats { additions: 2, deletions: 1 }),
        None,
        Some(DiffStats { additions: 3, deletions: 0 }),
    ];
    assert_eq!(total_stats(&stats), (5, 1));
}

#[test]
fn panel_keeps_the_changes_of_each_sandbox() {
    let mut panel = SidePanel::new();
    panel.show_waiting(1, "/workspace".to_string(), None);
    assert!(panel.needs_watcher(10));
    panel.on_sandbox_ready(10, true);
    assert!(!panel.needs_watcher(10));
    let r = panel.on_result(10, &result(&[("a", FileStatus::Added)], &[]));
    assert!(r.go_on);
    assert_eq!(listed(&panel.changes_tab), vec![("a".to_string(), FileStatus::Added)]);
    panel.on_sandbox_ready(20, true);
    assert!(listed(&panel.changes_tab).is_empty());
    panel.on_sandbox_ready(10, true);
    assert_eq!(listed(&panel.changes_tab), vec![("a".to_string(), FileStatus::Added)]);
}

#[test]
fn panel_restores_the_list_of_a_workspace() {
    let mut panel = SidePanel::new();
    panel.show_waiting(1, "/workspace".to_string(), None);
    panel.on_sandbox_ready(10, true);
    panel.on_result(10, &result(&[("a", FileStatus::Added)], &[]));
    panel.show_waiting(2, "/workspace".to_string(), Some("/host".to_string()));
    assert!(listed(&panel.changes_tab).is_empty());
    assert!(panel.needs_watcher(10));
    panel.show_waiting(1, "/workspace".to_string(), None);
    assert_eq!(listed(&panel.changes_tab), vec![("a".to_string(), FileStatus::Added)]);
    panel.deactivate();
    assert!(!panel.visible);
    assert!(listed(&panel.changes_tab).is_empty());
}
