use atrus::app::App;
use atrus::config::AppConfig;
use atrus::models::{
    AppMode, ChangeKind, DirEntry, FileItem, InputPurpose, PendingChange, RenameCase,
    RightPanelView, UndoKind, UndoLog, UtilityTab,
};

fn item(dir: &str, name: &str, is_dir: bool) -> FileItem {
    FileItem {
        name: name.to_string(),
        path: format!("{}/{}", dir, name),
        size: 1,
        is_dir,
        permissions: "rw-".to_string(),
        modified: "2024-01-01 00:00".to_string(),
    }
}

fn app_with(names: &[&str]) -> App {
    let mut app = App::new("/d".to_string(), AppConfig::default());
    let listing = names.iter().map(|n| item("/d", n, !n.contains('.'))).collect();
    app.refresh_files(listing);
    app
}

fn shown(app: &App) -> Vec<String> {
    app.filtered_files.iter().map(|f| f.name.clone()).collect()
}

fn change(src: &str) -> PendingChange {
    PendingChange {
        src: src.to_string(),
        dst: format!("{}.moved", src),
        description: String::new(),
        kind: ChangeKind::Move,
    }
}

#[test]
fn new_app_starts_in_the_explorer() {
    let app = App::new("/home/u".to_string(), AppConfig::default());
    assert_eq!(app.current_dir, "/home/u");
    assert_eq!(app.message, "Welcome to TUI File Manager!");
    assert_eq!(app.mode, AppMode::Explorer);
    assert_eq!(app.right_panel_view, RightPanelView::FileMetadata);
    assert_eq!(app.rename_case, RenameCase::Lowercase);
    assert_eq!(app.utility_tab, UtilityTab::Sort);
    assert!(app.regex_valid && app.files.is_empty() && app.undo_stack.is_empty());
}

#[test]
fn refresh_orders_and_shows_everything_without_query() {
    let app = app_with(&["b.txt", "sub", "a.txt"]);
    assert_eq!(shown(&app), vec!["sub", "a.txt", "b.txt"]);
    assert_eq!(app.files.len(), 3);
}

#[test]
fn filter_by_regex_and_clamp_selection() {
    let mut app = app_with(&["b.txt", "sub", "a.txt"]);
    app.selected_index = 2;
    app.search_query = "^a".to_string();
    app.apply_filter();
    assert_eq!(shown(&app), vec!["a.txt"]);
    assert!(app.regex_valid);
    assert_eq!(app.selected_index, 0);
    assert_eq!(app.message, "Welcome to TUI File Manager!");
}

#[test]
fn invalid_regex_falls_back_and_says_so() {
    let mut app = app_with(&["x(A.txt", "sub", "a.txt"]);
    app.search_query = "(a".to_string();
    app.apply_filter();
    assert!(!app.regex_valid);
    assert_eq!(shown(&app), vec!["x(A.txt"]);
    assert_eq!(app.message, "(Plain text match — invalid regex)");
}

#[test]
fn refresh_resets_selection_when_nothing_is_shown() {
    let mut app = app_with(&["a.txt", "b.txt"]);
    app.selected_index = 1;
    app.scroll_offset = 1;
    app.search_query = "nomatch".to_string();
    app.refresh_files(vec![item("/d", "a.txt", false)]);
    assert!(app.filtered_files.is_empty());
    assert_eq!((app.selected_index, app.scroll_offset), (0, 0));
}

#[test]
fn selection_wraps_both_ways() {
    let mut app = app_with(&["a.txt", "b.txt", "c.txt"]);
    app.move_selection_up();
    assert_eq!(app.selected_index, 2);
    app.scroll_offset = 2;
    app.move_selection_down();
    assert_eq!((app.selected_index, app.scroll_offset), (0, 0));
    app.move_selection_down();
    assert_eq!(app.selected_index, 1);
    let mut empty = app_with(&[]);
    empty.move_selection_down();
    empty.move_selection_up();
    assert_eq!(empty.selected_index, 0);
}

#[test]
fn down_then_up_and_up_then_down_return() {
    let mut app = app_with(&["a.txt", "b.txt", "c.txt", "d.txt"]);
    for start in 0..4 {
        app.selected_index = start;
        app.move_selection_down();
        app.move_selection_up();
        assert_eq!(app.selected_index, start);
        app.move_selection_up();
        app.move_selection_down();
        assert_eq!(app.selected_index, start);
    }
}

#[test]
fn moving_down_once_per_entry_comes_back() {
    let mut app = app_with(&["a.txt", "b.txt", "c.txt", "d.txt", "e.txt"]);
    app.selected_index = 3;
    for _ in 0..5 {
        app.move_selection_down();
    }
    assert_eq!(app.selected_index, 3);
}

#[test]
fn viewport_follows_the_selection() {
    let names: Vec<String> = (0..10).map(|i| format!("f{}.txt", i)).collect();
    let refs: Vec<&str> = names.iter().map(|s| s.as_str()).collect();
    let mut app = app_with(&refs);
    app.selected_index = 7;
    app.adjust_viewport(3);
    assert_eq!(app.scroll_offset, 5);
    app.selected_index = 2;
    app.adjust_viewport(3);
    assert_eq!(app.scroll_offset, 2);
    app.selected_index = 3;
    app.adjust_viewport(3);
    assert_eq!(app.scroll_offset, 2);
    app.selected_index = 40;
    app.adjust_viewport(4);
    assert_eq!((app.selected_index, app.scroll_offset), (9, 6));
    for sel in 0..10 {
        app.selected_index = sel;
        app.scroll_offset = 9 - sel;
        app.adjust_viewport(4);
        assert!(app.scroll_offset <= app.selected_index && app.selected_index < app.scroll_offset + 4);
    }
    let mut empty = app_with(&[]);
    empty.scroll_offset = 4;
    empty.adjust_viewport(3);
    assert_eq!(empty.scroll_offset, 0);
}

#[test]
fn entering_a_directory_changes_the_current_one() {
    let mut app = app_with(&["sub", "a.txt"]);
    app.scroll_offset = 1;
    assert!(app.go_into_dir());
    assert_eq!(app.current_dir, "/d/sub");
    assert_eq!((app.selected_index, app.scroll_offset), (0, 0));
    let mut app = app_with(&["sub", "a.txt"]);
    app.selected_index = 1;
    assert!(!app.go_into_dir());
    assert_eq!(app.current_dir, "/d");
    app.selected_index = 5;
    assert!(!app.go_into_dir());
}

#[test]
fn leaving_to_the_parent_highlights_the_directory_left() {
    let mut app = App::new("/d/sub".to_string(), AppConfig::default());
    let left = app.go_to_parent();
    assert_eq!(left.as_deref(), Some("/d/sub"));
    assert_eq!(app.current_dir, "/d");
    let names: Vec<String> = (0..7).map(|i| format!("dir{}", i)).chain(["sub".to_string()]).collect();
    app.refresh_files(names.iter().map(|n| item("/d", n, true)).collect());
    app.reselect("/d/sub");
    assert_eq!((app.selected_index, app.scroll_offset), (7, 2));
    app.reselect("/d/gone");
    assert_eq!((app.selected_index, app.scroll_offset), (0, 0));
    let mut root = App::new("/".to_string(), AppConfig::default());
    assert!(root.go_to_parent().is_none());
    assert_eq!(root.current_dir, "/");
}

#[test]
fn utilities_start_or_ask_for_a_scan() {
    let mut app = app_with(&[]);
    app.input_buffer = "left over".to_string();
    app.utility_tab = UtilityTab::Rename;
    assert!(app.run_utility_logic().is_none());
    assert_eq!(app.mode, AppMode::FilterInput);
    assert_eq!(app.input_purpose, InputPurpose::RenamePrefix);
    assert!(app.input_buffer.is_empty());
    for tab in [UtilityTab::Sort, UtilityTab::Clean, UtilityTab::Duplicates, UtilityTab::LargeFiles] {
        app.utility_tab = tab;
        assert_eq!(app.run_utility_logic(), Some(tab));
    }
}

#[test]
fn staging_sort_changes_opens_the_preview() {
    let mut app = app_with(&[]);
    app.show_dry_run_scroll = 3;
    let entries = vec![
        DirEntry { path: "/d/a.png".to_string(), is_file: true },
        DirEntry { path: "/d/b.rs".to_string(), is_file: true },
    ];
    app.stage_sort_changes(&entries);
    assert_eq!(app.pending_changes.len(), 2);
    assert_eq!(app.mode, AppMode::DryRunPreview);
    assert_eq!(app.show_dry_run_scroll, 0);
    assert_eq!(app.message, "Staged 2 organization operations. Confirm? (y/n)");
    app.mode = AppMode::UtilityMenu;
    app.stage_sort_changes(&[]);
    assert_eq!(app.mode, AppMode::Explorer);
    assert_eq!(app.message, "All items are already sorted cleanly.");
}

#[test]
fn staging_cleanup_reports_deletions() {
    let mut app = app_with(&[]);
    app.stage_cleanup_changes(&["/d/empty".to_string(), "/d".to_string()]);
    assert_eq!(app.pending_changes.len(), 1);
    assert_eq!(app.message, "Staged 1 deletions. Confirm structural removal? (y/n)");
    app.stage_cleanup_changes(&["/d".to_string()]);
    assert_eq!(app.message, "No empty folders or broken links detected.");
    assert_eq!(app.mode, AppMode::Explorer);
}

#[test]
fn duplicates_and_large_files_are_reported() {
    let mut app = app_with(&[]);
    app.mode = AppMode::UtilityMenu;
    let hashed = vec![
        ("/d/a".to_string(), "h".to_string()),
        ("/d/b".to_string(), "h".to_string()),
        ("/d/c".to_string(), "k".to_string()),
    ];
    app.show_duplicates(&hashed);
    assert_eq!(app.duplicates, vec![vec!["/d/a".to_string(), "/d/b".to_string()]]);
    assert_eq!(app.right_panel_view, RightPanelView::Duplicates);
    assert_eq!(app.message, "Scanning finished: 1 duplicate signature groups found.");
    assert_eq!(app.mode, AppMode::Explorer);
    let files: Vec<(String, u64)> = (0..25u64).map(|i| (format!("/d/f{}", i), i)).collect();
    app.show_large_files(files);
    assert_eq!(app.large_files.len(), 20);
    assert_eq!(app.large_files[0], ("/d/f24".to_string(), 24));
    assert_eq!(app.right_panel_view, RightPanelView::LargeFiles);
    let total: u64 = (5..25u64).sum();
    assert_eq!(app.message, format!("Top 20 large files found. Total: {} bytes.", total));
    app.show_large_files(vec![("/x".to_string(), u64::MAX), ("/y".to_string(), u64::MAX)]);
    assert_eq!(app.message, "Top 20 large files found. Total: 36893488147419103230 bytes.");
}

#[test]
fn rename_is_staged_with_prefix_and_case() {
    let mut app = app_with(&[]);
    app.rename_prefix = "new_".to_string();
    app.rename_case = RenameCase::Uppercase;
    let entries = vec![
        DirEntry { path: "/d/a.txt".to_string(), is_file: true },
        DirEntry { path: "/d/sub".to_string(), is_file: false },
    ];
    assert!(app.execute_rename(&entries));
    assert_eq!(app.pending_changes[0].dst, "/d/new_A.txt");
    assert_eq!(app.message, "1 files to rename. Confirm? (y/n)");
    assert_eq!(app.mode, AppMode::DryRunPreview);
    assert!(app.execute_rename(&[]));
    assert_eq!(app.message, "No files to rename.");
    assert_eq!(app.mode, AppMode::Explorer);
    let bad = vec![DirEntry { path: "/d/..".to_string(), is_file: true }];
    app.message = "kept".to_string();
    assert!(!app.execute_rename(&bad));
    assert_eq!(app.message, "kept");
}

#[test]
fn confirming_records_undo_and_reports() {
    let mut app = app_with(&["a.txt"]);
    app.pending_changes = vec![change("/d/a.txt")];
    app.mode = AppMode::DryRunPreview;
    let logs = vec![UndoLog { old_path: "/d/a.txt".to_string(), new_path: "/d/x/a.txt".to_string(), kind: UndoKind::Moved }];
    app.confirm_pending_changes(logs, vec![], Some(vec![item("/d", "x", true)]));
    assert_eq!(app.undo_stack.len(), 1);
    assert!(app.pending_changes.is_empty());
    assert_eq!(app.mode, AppMode::Explorer);
    assert_eq!(app.message, "Successfully processed all changes.");
    assert_eq!(shown(&app), vec!["x"]);
    app.confirm_pending_changes(
        vec![],
        vec!["first problem".to_string(), "second".to_string()],
        Some(vec![]),
    );
    assert_eq!(app.undo_stack.len(), 1);
    assert_eq!(app.message, "Processed changes, but 2 error(s) (e.g., first problem).");
    app.message = "unchanged".to_string();
    app.confirm_pending_changes(vec![], vec!["e".to_string()], None);
    assert_eq!(app.message, "unchanged");
}

#[test]
fn cancelling_drops_the_batch() {
    let mut app = app_with(&[]);
    app.pending_changes = vec![change("/d/a")];
    app.mode = AppMode::DryRunPreview;
    app.cancel_pending_changes();
    assert!(app.pending_changes.is_empty());
    assert_eq!(app.mode, AppMode::Explorer);
    assert_eq!(app.message, "Operation cancelled safely.");
}

#[test]
fn undo_takes_the_last_batch() {
    let mut app = app_with(&[]);
    assert!(app.undo_last().is_none());
    assert_eq!(app.message, "Undo structural stack is empty!");
    app.undo_stack.push(vec![UndoLog { old_path: "/a".to_string(), new_path: "/b".to_string(), kind: UndoKind::Moved }]);
    app.undo_stack.push(vec![UndoLog { old_path: "/c".to_string(), new_path: "/d".to_string(), kind: UndoKind::Moved }]);
    let logs = app.undo_last().unwrap();
    assert_eq!(logs[0].old_path, "/c");
    assert_eq!(app.undo_stack.len(), 1);
}

#[test]
fn settings_list_categories_in_order() {
    let mut app = app_with(&[]);
    app.settings_selected = 3;
    app.load_settings();
    assert_eq!(
        app.settings_categories,
        vec!["Archives", "Audio", "Code", "Documents", "Images", "Installers", "Others", "Videos"]
    );
    assert_eq!(app.settings_selected, 0);
    app.mode = AppMode::Settings;
    app.save_settings();
    assert_eq!(app.message, "Configuration successfully flushed to disk storage JSON.");
    assert_eq!(app.mode, AppMode::Explorer);
}

#[test]
fn undo_gives_back_the_batch_just_confirmed() {
    let mut app = app_with(&[]);
    app.undo_stack.push(vec![UndoLog { old_path: "/p".to_string(), new_path: "/q".to_string(), kind: UndoKind::Moved }]);
    let logs = vec![
        UndoLog { old_path: "/a".to_string(), new_path: "/x/a".to_string(), kind: UndoKind::Moved },
        UndoLog { old_path: "/b".to_string(), new_path: "/x/b".to_string(), kind: UndoKind::Moved },
    ];
    app.confirm_pending_changes(logs, vec![], Some(vec![]));
    let taken = app.undo_last().unwrap();
    let pairs: Vec<_> = taken.iter().map(|l| (l.old_path.as_str(), l.new_path.as_str())).collect();
    assert_eq!(pairs, vec![("/a", "/x/a"), ("/b", "/x/b")]);
    assert_eq!(app.undo_stack.len(), 1);
    assert_eq!(app.undo_stack[0][0].old_path, "/p");
}

#[test]
fn undo_after_a_clean_up_takes_back_the_clean_up() {
    let mut app = app_with(&[]);
    let earlier = vec![UndoLog { old_path: "/d/f".to_string(), new_path: "/d/Docs/f".to_string(), kind: UndoKind::Moved }];
    app.undo_stack.push(earlier);
    let removals = vec![UndoLog { old_path: "/d/empty".to_string(), new_path: String::new(), kind: UndoKind::RemovedDir }];
    app.confirm_pending_changes(removals, vec![], Some(vec![]));
    let taken = app.undo_last().unwrap();
    assert_eq!(taken.len(), 1);
    assert_eq!((taken[0].old_path.as_str(), taken[0].kind), ("/d/empty", UndoKind::RemovedDir));
    assert_eq!(app.undo_stack.len(), 1);
    assert_eq!(app.undo_stack[0][0].kind, UndoKind::Moved);
}

#[test]
fn preview_lines_scroll_and_truncate() {
    let pending: Vec<PendingChange> = (0..20)
        .map(|i| PendingChange {
            src: String::new(),
            dst: String::new(),
            description: format!("change {}", i),
            kind: ChangeKind::Move,
        })
        .collect();
    let lines = atrus::app::dry_run_lines(&pending, 1);
    assert_eq!(lines.len(), 18);
    assert_eq!(lines[0], "  ● change 1");
    assert_eq!(lines[16], "  ● change 17");
    assert_eq!(lines[17], " ... truncated logs overflow parameters ...");
    let lines = atrus::app::dry_run_lines(&pending, 3);
    assert_eq!(lines.len(), 17);
    assert_eq!(lines[16], "  ● change 19");
    assert!(atrus::app::dry_run_lines(&pending, 20).is_empty());
    assert!(atrus::app::dry_run_lines(&pending, 99).is_empty());
}
