use kiorg::app::{
    fallback_dir_from, fallback_initial_dir, fs_event_requires_refresh, picker_config_from_args,
    resolve_initial_dir, Clipboard, DirStatus, FsEventKind, Kiorg, KiorgError, NotificationKind,
    PickerConfig, Popup, Rename,
};
use kiorg::tab::{DirEntry, Tab, TabManager};
use kiorg::visit_history::{VisitHistory, VisitHistoryEntry};

fn s(x: &str) -> String {
    x.to_string()
}

fn dir_entry(dir: &str, name: &str) -> DirEntry {
    DirEntry { name: s(name), path: format!("{dir}/{name}"), is_dir: false }
}

fn tab_with(dir: &str, names: &[&str]) -> Tab {
    Tab::new(s(dir), names.iter().map(|n| dir_entry(dir, n)).collect())
}

fn app_with(dir: &str, names: &[&str]) -> Kiorg {
    Kiorg::new(TabManager::new(tab_with(dir, names)), VisitHistory::new(), None)
}

fn current(k: &Kiorg) -> &Tab {
    k.tab_manager.current_tab_ref()
}

fn sorted(mut v: Vec<String>) -> Vec<String> {
    v.sort();
    v
}

#[test]
fn test_fallback_to_current_dir_when_saved_path_nonexistent() {
    let saved = DirStatus { path: s("/path/that/does/not/exist"), exists: false, is_dir: false };
    let start = resolve_initial_dir(None, Some(saved), fallback_initial_dir()).ok().unwrap();
    assert_ne!(start.path, "/path/that/does/not/exist");
    let expected = dirs::home_dir().unwrap().to_string_lossy().into_owned();
    assert_eq!(start.path, expected);
    assert!(!start.from_saved_state);
}

#[test]
fn test_navigate_to_nonexistent_directory_removes_from_history() {
    let home = s("/home/user");
    let existing_dir = s("/tmp/existing_dir");
    let mut history = VisitHistory::new();
    history.insert(VisitHistoryEntry { path: existing_dir.clone(), accessed_ts: 1640995200, count: 5 });
    history.insert(VisitHistoryEntry { path: home.clone(), accessed_ts: 1640995100, count: 3 });
    let mut app = Kiorg::new(TabManager::new(tab_with(&home, &[])), history, None);

    assert_eq!(app.visit_history.len(), 2);
    assert!(app.visit_history.contains_key(&existing_dir));
    assert!(app.visit_history.contains_key(&home));

    // The directory has been removed from the disk.
    let actions = app.navigate_to_dir(existing_dir.clone(), false, 1700000000);

    assert_eq!(app.visit_history.len(), 1);
    assert!(!app.visit_history.contains_key(&existing_dir));
    assert!(app.visit_history.contains_key(&home));
    assert_eq!(current(&app).current_path, home);
    assert!(actions.entered.is_none());
    assert!(actions.save_history);
    let n = app.notifications.last().unwrap();
    assert_eq!(n.kind, NotificationKind::Error);
    assert_eq!(
        n.message,
        "Cannot navigate to '/tmp/existing_dir': Path is not a directory or doesn't exist"
    );
}

#[test]
fn test_tab_selection_preserved_at_runtime() {
    let t1 = tab_with("/d", &["file1.txt", "file2.txt", "file3.txt"]);
    let t2 = tab_with("/d", &["file1.txt", "file2.txt", "file3.txt"]);
    let mut m = TabManager::new(t1);
    m.tabs.push(t2);
    let mut app = Kiorg::new(m, VisitHistory::new(), None);
    assert_eq!(app.tab_manager.tabs.len(), 2);

    app.tab_manager.current_tab_index = 0;
    app.move_selection(1);
    assert_eq!(current(&app).selected_index, 1, "First tab should have index 1 selected");

    app.tab_manager.current_tab_index = 1;
    app.move_selection(1);
    app.move_selection(1);
    assert_eq!(current(&app).selected_index, 2, "Second tab should have index 2 selected");

    app.tab_manager.current_tab_index = 0;
    assert_eq!(current(&app).selected_index, 1);
    app.tab_manager.current_tab_index = 1;
    assert_eq!(current(&app).selected_index, 2);
}

#[test]
fn test_tab_selection_not_persisted() {
    let mut m = TabManager::new(tab_with("/a", &["file1.txt", "file2.txt", "file3.txt"]));
    m.tabs.push(tab_with("/b", &["file1.txt", "file2.txt", "file3.txt"]));
    m.tabs[0].selected_index = 1;
    m.tabs[1].selected_index = 2;
    m.current_tab_index = 1;

    let state = m.to_state();
    assert_eq!(state.tab_states.len(), 2);
    assert_eq!(state.current_tab_index, 1);
    assert_eq!(state.tab_states[0].current_path, "/a");
    assert_eq!(state.tab_states[1].current_path, "/b");

    let restored = TabManager::from_state(state).unwrap();
    assert_eq!(restored.tabs.len(), 2);
    assert_eq!(restored.tabs[0].selected_index, 0);
    assert_eq!(restored.tabs[1].selected_index, 0);
    assert_eq!(restored.current_tab_index, 1);
}

// ---------------------------------------------------------- further cases

#[test]
fn move_selection_stays_in_the_filtered_list() {
    let mut app = app_with("/d", &["a", "b", "c", "d"]);
    app.tab_manager.tabs[0].filtered = vec![0, 2, 3];
    app.move_selection(1);
    assert_eq!(current(&app).selected_index, 2);
    assert!(app.selection_changed && app.ensure_selected_visible);
    app.move_selection(5);
    assert_eq!(current(&app).selected_index, 2);
    app.move_selection(-1);
    assert_eq!(current(&app).selected_index, 0);
    app.move_selection(-1);
    assert_eq!(current(&app).selected_index, 0);
}

#[test]
fn move_selection_picks_first_shown_when_selection_is_filtered_out() {
    let mut app = app_with("/d", &["a", "b", "c"]);
    app.tab_manager.tabs[0].filtered = vec![1, 2];
    app.move_selection(7);
    assert_eq!(current(&app).selected_index, 1);
}

#[test]
fn move_then_move_back_restores_selection() {
    let mut app = app_with("/d", &["a", "b", "c", "d", "e"]);
    app.move_selection(3);
    assert_eq!(current(&app).selected_index, 3);
    app.move_selection(-3);
    assert_eq!(current(&app).selected_index, 0);
}

#[test]
fn page_moves_by_the_visible_range() {
    let names: Vec<String> = (0..30).map(|i| format!("f{i}")).collect();
    let refs: Vec<&str> = names.iter().map(|n| n.as_str()).collect();
    let mut app = app_with("/d", &refs);
    app.move_selection_by_page(1);
    assert_eq!(current(&app).selected_index, 10);
    app.scroll_range = Some((4, 9));
    app.move_selection_by_page(1);
    assert_eq!(current(&app).selected_index, 14);
    app.move_selection_by_page(-1);
    assert_eq!(current(&app).selected_index, 10);
    app.scroll_range = None;
    app.move_selection_by_page(1);
    app.move_selection_by_page(1);
    assert_eq!(current(&app).selected_index, 29);
    app.move_selection_by_page(-1);
    app.move_selection_by_page(-1);
    app.move_selection_by_page(-1);
    assert_eq!(current(&app).selected_index, 0);
}

#[test]
fn set_selection_only_flags_a_change() {
    let mut app = app_with("/d", &["a", "b"]);
    app.selection_changed = false;
    app.set_selection(0);
    assert!(!app.selection_changed);
    app.set_selection(1);
    assert!(app.selection_changed);
    assert_eq!(current(&app).selected_index, 1);
}

#[test]
fn copy_takes_marked_entries() {
    let mut app = app_with("/d", &["a", "b", "c"]);
    app.tab_manager.tabs[0].marked_entries = vec![s("/d/b"), s("/d/c")];
    app.tab_manager.tabs[0].selected_index = 1;
    app.copy_selected_entries();
    match &app.clipboard {
        Some(Clipboard::Copy(v)) => assert_eq!(sorted(v.clone()), vec![s("/d/b"), s("/d/c")]),
        _ => panic!("expected a copy"),
    }
}

#[test]
fn cut_of_unmarked_selection_clears_marks() {
    let mut app = app_with("/d", &["a", "b", "c"]);
    app.tab_manager.tabs[0].marked_entries = vec![s("/d/b")];
    app.tab_manager.tabs[0].selected_index = 0;
    app.cut_selected_entries();
    match &app.clipboard {
        Some(Clipboard::Cut(v)) => assert_eq!(v, &vec![s("/d/a")]),
        _ => panic!("expected a cut"),
    }
    assert!(current(&app).marked_entries.is_empty());
}

#[test]
fn copy_applies_range_selection() {
    let mut app = app_with("/d", &["a", "b", "c", "d"]);
    app.tab_manager.tabs[0].range_selection_start = Some(3);
    app.tab_manager.tabs[0].selected_index = 1;
    app.copy_selected_entries();
    match &app.clipboard {
        Some(Clipboard::Copy(v)) => {
            assert_eq!(sorted(v.clone()), vec![s("/d/b"), s("/d/c"), s("/d/d")])
        }
        _ => panic!("expected a copy"),
    }
    assert!(current(&app).range_selection_start.is_none());
}

#[test]
fn copy_with_nothing_selected_leaves_clipboard() {
    let mut app = app_with("/d", &[]);
    app.copy_selected_entries();
    assert!(app.clipboard.is_none());
}

#[test]
fn select_all_marks_the_filtered_entries() {
    let mut app = app_with("/d", &["a", "b", "c"]);
    app.tab_manager.tabs[0].marked_entries = vec![s("/d/a")];
    app.tab_manager.tabs[0].filtered = vec![1, 2];
    app.select_all_entries();
    assert_eq!(sorted(current(&app).marked_entries.clone()), vec![s("/d/b"), s("/d/c")]);
}

#[test]
fn delete_asks_for_the_selected_entry() {
    let mut app = app_with("/d", &["a", "b"]);
    app.tab_manager.tabs[0].selected_index = 1;
    app.delete_selected_entry();
    match &app.show_popup {
        Some(Popup::Delete(v)) => assert_eq!(v, &vec![s("/d/b")]),
        None => panic!("expected the delete popup"),
    }
    let mut empty = app_with("/d", &[]);
    empty.delete_selected_entry();
    assert!(empty.show_popup.is_none());
}

#[test]
fn rename_goes_to_the_parent_directory() {
    let mut app = app_with("/d", &["old.txt"]);
    app.rename_selected_entry();
    assert_eq!(app.inline_rename.as_ref().unwrap().original_name, "old.txt");
    app.inline_rename.as_mut().unwrap().new_name = s("  new.txt ");
    let req = app.confirm_rename().unwrap();
    assert_eq!(req.old_path, "/d/old.txt");
    assert_eq!(req.new_path, "/d/new.txt");
    assert!(app.inline_rename.is_none());
    assert!(app.finish_rename(req, Ok(())));
    assert_eq!(current(&app).action_history.len(), 1);
}

#[test]
fn rename_to_the_same_or_empty_name_does_nothing() {
    let mut app = app_with("/d", &["x"]);
    app.inline_rename =
        Some(Rename { original_index: 0, original_name: s("x"), new_name: s(" x ") });
    assert!(app.confirm_rename().is_none());
    app.inline_rename = Some(Rename { original_index: 0, original_name: s("x"), new_name: s("  ") });
    assert!(app.confirm_rename().is_none());
}

#[test]
fn failed_rename_is_shown() {
    let mut app = app_with("/d", &["x"]);
    app.inline_rename = Some(Rename { original_index: 0, original_name: s("x"), new_name: s("y") });
    let req = app.confirm_rename().unwrap();
    assert!(!app.finish_rename(req, Err(s("denied"))));
    assert_eq!(app.notifications.last().unwrap().message, "Failed to rename: denied");
}

#[test]
fn drag_and_drop_decisions() {
    let mut app = app_with("/d", &["x"]);
    assert!(!app.is_dragging());
    app.start_drag(s("/d/x"));
    assert!(app.is_dragging());
    assert_eq!(app.get_dragged_file().unwrap(), "/d/x");
    assert!(app.move_dragged_item_to_folder(s("/d/x/")).is_none());
    assert_eq!(app.notifications.last().unwrap().message, "Cannot move an entry into itself");
    assert!(!app.is_dragging());

    app.start_drag(s("/d/x"));
    assert!(app.move_dragged_item_to_folder(s("/d")).is_none());
    assert_eq!(
        app.notifications.last().unwrap().message,
        "Entry is already in the target directory"
    );

    app.start_drag(s("/d/x"));
    assert_eq!(app.move_dragged_item_to_folder(s("/e")), Some(s("/e")));
    match &app.clipboard {
        Some(Clipboard::Cut(v)) => assert_eq!(v, &vec![s("/d/x")]),
        _ => panic!("expected a cut"),
    }
    assert_eq!(app.end_drag(), None);
}

#[test]
fn navigation_records_visits_and_history() {
    let mut app = app_with("/a", &["x"]);
    let actions = app.navigate_to_dir(s("/b"), true, 100);
    assert_eq!(actions.entered, Some(s("/b")));
    assert!(actions.save_history);
    assert_eq!(current(&app).current_path, "/b");
    assert_eq!(app.prev_path, Some(s("/a")));
    let e = app.visit_history.get(&s("/b")).unwrap();
    assert_eq!((e.accessed_ts, e.count), (100, 1));
    app.refresh_entries(vec![dir_entry("/b", "y"), dir_entry("/b", "z")], vec![0, 1]);
    assert!(app.prev_path.is_none());
    app.navigate_to_dir(s("/c"), true, 200);

    assert_eq!(app.navigate_history_back(), Some(s("/b")));
    assert_eq!(current(&app).current_path, "/b");
    assert_eq!(app.navigate_history_back(), Some(s("/a")));
    assert_eq!(app.navigate_history_back(), None);
    assert_eq!(app.navigate_history_forward(), Some(s("/b")));
    assert_eq!(app.navigate_history_forward(), Some(s("/c")));
    assert_eq!(app.navigate_history_forward(), None);
}

#[test]
fn visiting_after_going_back_drops_the_forward_history() {
    let mut app = app_with("/a", &[]);
    app.navigate_to_dir(s("/b"), true, 1);
    app.navigate_history_back();
    app.navigate_to_dir(s("/c"), true, 2);
    assert_eq!(app.navigate_history_forward(), None);
    assert_eq!(app.navigate_history_back(), Some(s("/a")));
}

#[test]
fn refresh_selects_the_previous_entry_again() {
    let mut app = app_with("/d", &["a", "b", "c"]);
    app.tab_manager.tabs[0].selected_index = 2;
    app.on_fs_change();
    assert_eq!(app.prev_path, Some(s("/d/c")));
    app.refresh_entries(vec![dir_entry("/d", "c"), dir_entry("/d", "z")], vec![0, 1]);
    assert_eq!(current(&app).selected_index, 0);
    assert!(app.scroll_left_panel && app.ensure_selected_visible && app.selection_changed);
}

#[test]
fn picker_writes_marked_paths() {
    let cfg = PickerConfig { result_file: s("/tmp/r"), multiple: true, directory_only: false, save_mode: false };
    let mut app = Kiorg::new(TabManager::new(tab_with("/d", &["a", "b"])), VisitHistory::new(), Some(cfg));
    app.tab_manager.tabs[0].marked_entries = vec![s("/d/a"), s("/d/b")];
    let w = app.picker_confirm(&vec![false, false], false).unwrap();
    assert_eq!(w.result_file, "/tmp/r");
    assert_eq!(w.content, "/d/a\n/d/b");
    app.picker_write_finished(Ok(()));
    assert!(app.shutdown_requested);
}

#[test]
fn picker_directory_only_rejects_files() {
    let cfg = PickerConfig { result_file: s("/tmp/r"), multiple: false, directory_only: true, save_mode: false };
    let mut app = Kiorg::new(TabManager::new(tab_with("/d", &["a"])), VisitHistory::new(), Some(cfg));
    assert!(app.picker_confirm(&vec![], false).is_none());
    assert_eq!(app.notifications.last().unwrap().message, "Select a directory.");
    let w = app.picker_confirm(&vec![], true).unwrap();
    assert_eq!(w.content, "/d/a");
}

#[test]
fn picker_save_mode_needs_a_filename() {
    let cfg = PickerConfig { result_file: s("/tmp/r"), multiple: false, directory_only: false, save_mode: true };
    let mut app = Kiorg::new(TabManager::new(tab_with("/d", &[])), VisitHistory::new(), Some(cfg));
    app.picker_save_filename = s("   ");
    assert!(app.picker_confirm(&vec![], false).is_none());
    assert_eq!(app.notifications.last().unwrap().message, "Enter a filename before confirming.");
    app.picker_save_filename = s(" out.txt ");
    assert_eq!(app.picker_confirm(&vec![], false).unwrap().content, "/d/out.txt");
    app.picker_write_finished(Err(s("disk full")));
    assert_eq!(app.notifications.last().unwrap().message, "Failed to write picker result: disk full");
    assert!(!app.shutdown_requested);
    app.picker_cancel();
    assert!(app.shutdown_requested);
}

#[test]
fn picker_without_selection_reports_it() {
    let cfg = PickerConfig { result_file: s("/tmp/r"), multiple: false, directory_only: false, save_mode: false };
    let mut app = Kiorg::new(TabManager::new(tab_with("/d", &[])), VisitHistory::new(), Some(cfg));
    assert!(app.picker_confirm(&vec![], false).is_none());
    assert_eq!(app.notifications.last().unwrap().message, "No file selected.");
    let mut plain = app_with("/d", &["a"]);
    assert!(plain.picker_confirm(&vec![], false).is_none());
}

#[test]
fn picker_bar_label_counts_marks() {
    let mut app = app_with("/d", &["a", "b"]);
    assert_eq!(app.picker_bar_label(), "a");
    app.tab_manager.tabs[0].marked_entries = vec![s("/d/a"), s("/d/b")];
    assert_eq!(app.picker_bar_label(), "2 selected");
    let empty = app_with("/d", &[]);
    assert_eq!(empty.picker_bar_label(), "");
}

#[test]
fn kiorg_error_messages() {
    assert_eq!(KiorgError::DirectoryNotFound(s("/x")).message(), "Directory not found: /x");
    assert_eq!(KiorgError::NotADirectory(s("/x")).message(), "Not a directory: /x");
    assert_eq!(KiorgError::ConfigError(s("bad")).message(), "Configuration error: bad");
    assert_eq!(KiorgError::WatcherError(s("w")).message(), "File system watcher error: w");
    assert_eq!(KiorgError::Other(s("o")).message(), "o");
    assert!(KiorgError::ConfigError(s("bad")).is_config_error());
    assert!(!KiorgError::Other(s("o")).is_config_error());
}

#[test]
fn explicit_start_directory_is_checked() {
    let missing = DirStatus { path: s("/nope"), exists: false, is_dir: false };
    assert!(matches!(resolve_initial_dir(Some(missing), None, s("/h")), Err(KiorgError::DirectoryNotFound(p)) if p == "/nope"));
    let file = DirStatus { path: s("/f"), exists: true, is_dir: false };
    assert!(matches!(resolve_initial_dir(Some(file), None, s("/h")), Err(KiorgError::NotADirectory(p)) if p == "/f"));
    let ok = DirStatus { path: s("/ok"), exists: true, is_dir: true };
    let start = resolve_initial_dir(Some(ok), None, s("/h")).ok().unwrap();
    assert_eq!(start.path, "/ok");
    let saved = DirStatus { path: s("/saved"), exists: true, is_dir: true };
    let start = resolve_initial_dir(None, Some(saved), s("/h")).ok().unwrap();
    assert!(start.from_saved_state);
    assert_eq!(resolve_initial_dir(None, None, s("/h")).ok().unwrap().path, "/h");
    assert_eq!(fallback_dir_from(None), ".");
    assert_eq!(fallback_dir_from(Some(s("/home/u"))), "/home/u");
}

#[test]
fn picker_config_comes_from_pick_mode() {
    assert!(picker_config_from_args(None, true, true, true).is_none());
    let c = picker_config_from_args(Some(s("/tmp/r")), true, false, true).unwrap();
    assert_eq!(c.result_file, "/tmp/r");
    assert!(c.multiple && !c.directory_only && c.save_mode);
}

#[test]
fn watcher_events_that_refresh() {
    assert!(fs_event_requires_refresh(FsEventKind::Create));
    assert!(fs_event_requires_refresh(FsEventKind::Modify));
    assert!(fs_event_requires_refresh(FsEventKind::Remove));
    assert!(!fs_event_requires_refresh(FsEventKind::Access));
    assert!(!fs_event_requires_refresh(FsEventKind::Any));
    assert!(!fs_event_requires_refresh(FsEventKind::Other));
}

#[test]
fn notifications_keep_their_kind() {
    let mut app = app_with("/d", &[]);
    app.notify_info(s("i"));
    app.notify_success(s("ok"));
    assert_eq!(app.notifications.len(), 2);
    assert_eq!(app.notifications[0].kind, NotificationKind::Info);
    assert_eq!(app.notifications[1].kind, NotificationKind::Success);
}

#[test]
fn background_messages_are_shown_in_order() {
    let mut app = app_with("/d", &[]);
    app.notify_error(s("first"));
    app.check_notifications(vec![
        kiorg::app::Notification { kind: NotificationKind::Error, message: s("e") },
        kiorg::app::Notification { kind: NotificationKind::Info, message: s("i") },
    ]);
    let msgs: Vec<&str> = app.notifications.iter().map(|n| n.message.as_str()).collect();
    assert_eq!(msgs, vec!["first", "e", "i"]);
}

#[test]
fn widgets_take_input_in_save_mode_and_terminal() {
    let cfg = PickerConfig { result_file: s("/r"), multiple: false, directory_only: false, save_mode: true };
    let picker = Kiorg::new(TabManager::new(tab_with("/d", &[])), VisitHistory::new(), Some(cfg));
    assert!(picker.input_taken_by_widget(false, true));
    assert!(!picker.input_taken_by_widget(false, false));
    let plain = app_with("/d", &[]);
    assert!(!plain.input_taken_by_widget(false, true));
    assert!(plain.input_taken_by_widget(true, false));
}

#[test]
fn picker_without_multiple_refuses_several_marks() {
    let cfg = PickerConfig { result_file: s("/tmp/r"), multiple: false, directory_only: false, save_mode: false };
    let mut app = Kiorg::new(TabManager::new(tab_with("/d", &["a", "b"])), VisitHistory::new(), Some(cfg));
    app.tab_manager.tabs[0].marked_entries = vec![s("/d/a"), s("/d/b")];
    assert!(app.picker_confirm(&vec![false, false], false).is_none());
    assert_eq!(app.notifications.last().unwrap().message, "Select a single entry.");
    app.tab_manager.tabs[0].marked_entries = vec![s("/d/b")];
    assert_eq!(app.picker_confirm(&vec![false], false).unwrap().content, "/d/b");
}

#[test]
fn visits_to_the_same_directory_share_one_entry() {
    let mut app = app_with("/", &[]);
    app.navigate_to_dir(s("/a"), true, 10);
    app.navigate_to_dir(s("/a/"), true, 20);
    assert_eq!(app.visit_history.len(), 1);
    let e = app.visit_history.get(&s("/a")).unwrap();
    assert_eq!((e.accessed_ts, e.count), (20, 2));
    assert!(app.visit_history.contains_key(&s("/a/")));
}

#[test]
fn refresh_selects_the_previous_entry_by_components() {
    let mut app = app_with("/d", &["a", "b", "c"]);
    app.prev_path = Some(s("/d/./c/"));
    app.refresh_entries(vec![dir_entry("/d", "z"), dir_entry("/d", "c")], vec![]);
    assert_eq!(current(&app).selected_index, 1);
}

#[test]
fn refresh_without_a_query_shows_every_entry() {
    let mut app = app_with("/d", &["a"]);
    app.refresh_entries(
        vec![dir_entry("/d", "x"), dir_entry("/d", "y"), dir_entry("/d", "z")],
        vec![2],
    );
    assert_eq!(current(&app).filtered, vec![0, 1, 2]);
}

#[test]
fn refresh_with_a_query_keeps_the_matches() {
    let mut app = app_with("/d", &["a"]);
    app.search_query = Some(s("y"));
    app.refresh_entries(
        vec![dir_entry("/d", "x"), dir_entry("/d", "y"), dir_entry("/d", "zy")],
        vec![1, 2],
    );
    assert_eq!(current(&app).filtered, vec![1, 2]);
    assert_eq!(current(&app).entries.len(), 3);
}

#[test]
fn watch_failure_is_reported() {
    let mut app = app_with("/d", &[]);
    app.watch_failed(s("too many watches"));
    let n = app.notifications.last().unwrap();
    assert_eq!(n.kind, NotificationKind::Error);
    assert_eq!(n.message, "Failed to watch directory: too many watches");
}

#[test]
fn shutdown_request_is_taken_once() {
    let mut app = app_with("/d", &[]);
    assert!(!app.take_shutdown_request());
    app.shutdown_requested = true;
    assert!(app.take_shutdown_request());
    assert!(!app.shutdown_requested);
    assert!(!app.take_shutdown_request());
}

#[test]
fn marks_are_found_by_components() {
    let mut app = app_with("/d", &["a", "b", "c"]);
    app.tab_manager.tabs[0].marked_entries = vec![s("/d/b/")];
    app.tab_manager.tabs[0].selected_index = 1;
    app.copy_selected_entries();
    match &app.clipboard {
        Some(Clipboard::Copy(v)) => assert_eq!(v, &vec![s("/d/b/")]),
        _ => panic!("expected a copy"),
    }
}
