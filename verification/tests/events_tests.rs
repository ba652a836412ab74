use atrus::app::App;
use atrus::config::AppConfig;
use atrus::events::{finish_refresh, handle_key_event, AfterRefresh, Command, Key};
use atrus::models::{AppMode, ChangeKind, FileItem, InputPurpose, PendingChange, RenameCase, UndoKind, UndoLog, UtilityTab};

fn item(dir: &str, name: &str, is_dir: bool) -> FileItem {
    FileItem {
        name: name.to_string(),
        path: format!("{}/{}", dir, name),
        size: 1,
        is_dir,
        permissions: "rw-".to_string(),
        modified: "2024-01-01 00:00".to_string(),
    }
}

fn app_in(dir: &str, entries: &[(&str, bool)]) -> App {
    let mut app = App::new(dir.to_string(), AppConfig::default());
    app.refresh_files(entries.iter().map(|(n, d)| item(dir, n, *d)).collect());
    app
}

fn press(app: &mut App, key: Key) -> Command {
    handle_key_event(app, key)
}

fn type_text(app: &mut App, text: &str) {
    for c in text.chars() {
        assert!(matches!(press(app, Key::Char(c)), Command::Stay));
    }
}

#[test]
fn explorer_quits_on_q_and_esc() {
    let mut app = app_in("/d", &[]);
    assert!(matches!(press(&mut app, Key::Char('q')), Command::Quit));
    assert!(matches!(press(&mut app, Key::Esc), Command::Quit));
    assert_eq!(app.mode, AppMode::Explorer);
}

#[test]
fn explorer_moves_enters_and_leaves() {
    let mut app = app_in("/d", &[("sub", true), ("a.txt", false)]);
    assert!(matches!(press(&mut app, Key::Down), Command::Stay));
    assert_eq!(app.selected_index, 1);
    assert!(matches!(press(&mut app, Key::Char('l')), Command::Stay));
    assert!(matches!(press(&mut app, Key::Char('k')), Command::Stay));
    assert_eq!(app.selected_index, 0);
    assert!(matches!(press(&mut app, Key::Enter), Command::Refresh(AfterRefresh::Nothing)));
    assert_eq!(app.current_dir, "/d/sub");
    match press(&mut app, Key::Backspace) {
        Command::Refresh(AfterRefresh::Reselect(d)) => assert_eq!(d, "/d/sub"),
        _ => panic!("expected a refresh that reselects"),
    }
    assert_eq!(app.current_dir, "/d");
    finish_refresh(&mut app, Some(vec![item("/d", "sub", true), item("/d", "a.txt", false)]), AfterRefresh::Reselect("/d/sub".to_string()));
    assert_eq!(app.selected_index, 0);
    let mut root = app_in("/", &[]);
    assert!(matches!(press(&mut root, Key::Left), Command::Stay));
    assert_eq!(root.current_dir, "/");
}

#[test]
fn explorer_opens_filter_menu_and_settings() {
    let mut app = app_in("/d", &[]);
    app.search_query = "old".to_string();
    press(&mut app, Key::Char('f'));
    assert_eq!(app.mode, AppMode::FilterInput);
    assert_eq!(app.input_purpose, InputPurpose::Filter);
    assert_eq!(app.input_buffer, "old");
    let mut app = app_in("/d", &[]);
    press(&mut app, Key::Char('u'));
    assert_eq!(app.mode, AppMode::UtilityMenu);
    let mut app = app_in("/d", &[]);
    press(&mut app, Key::Char('s'));
    assert_eq!(app.mode, AppMode::Settings);
    assert_eq!(app.settings_categories.len(), 8);
    assert_eq!(app.settings_categories[0], "Archives");
}

#[test]
fn explorer_undo_asks_to_reverse_the_last_batch() {
    let mut app = app_in("/d", &[]);
    assert!(matches!(press(&mut app, Key::Char('z')), Command::Stay));
    assert_eq!(app.message, "Undo structural stack is empty!");
    app.undo_stack.push(vec![UndoLog { old_path: "/d/a".to_string(), new_path: "/d/b".to_string(), kind: UndoKind::Moved }]);
    match press(&mut app, Key::Char('z')) {
        Command::Undo(logs) => assert_eq!(logs[0].new_path, "/d/b"),
        _ => panic!("expected an undo"),
    }
    assert!(app.undo_stack.is_empty());
    finish_refresh(&mut app, Some(vec![item("/d", "a", false)]), AfterRefresh::UndoDone);
    assert_eq!(app.message, "Last operation successfully reversed.");
    assert_eq!(app.files.len(), 1);
}

#[test]
fn utility_menu_picks_tools() {
    let mut app = app_in("/d", &[]);
    app.mode = AppMode::UtilityMenu;
    assert!(matches!(press(&mut app, Key::Char('1')), Command::Scan(UtilityTab::Sort)));
    assert!(matches!(press(&mut app, Key::Char('3')), Command::Scan(UtilityTab::Clean)));
    assert!(matches!(press(&mut app, Key::Char('4')), Command::Scan(UtilityTab::Duplicates)));
    assert!(matches!(press(&mut app, Key::Char('5')), Command::Scan(UtilityTab::LargeFiles)));
    assert_eq!(app.utility_tab, UtilityTab::LargeFiles);
    assert!(matches!(press(&mut app, Key::Char('9')), Command::Stay));
    assert_eq!(app.mode, AppMode::UtilityMenu);
    assert!(matches!(press(&mut app, Key::Char('2')), Command::Stay));
    assert_eq!(app.mode, AppMode::FilterInput);
    assert_eq!(app.input_purpose, InputPurpose::RenamePrefix);
    let mut app = app_in("/d", &[]);
    app.mode = AppMode::UtilityMenu;
    press(&mut app, Key::Char('q'));
    assert_eq!(app.mode, AppMode::Explorer);
}

#[test]
fn input_box_edits_and_cycles_case() {
    let mut app = app_in("/d", &[]);
    app.mode = AppMode::FilterInput;
    app.input_purpose = InputPurpose::RenamePrefix;
    type_text(&mut app, "abé");
    press(&mut app, Key::Backspace);
    assert_eq!(app.input_buffer, "ab");
    press(&mut app, Key::Tab);
    assert_eq!(app.rename_case, RenameCase::Uppercase);
    press(&mut app, Key::Tab);
    assert_eq!(app.rename_case, RenameCase::CamelCase);
    press(&mut app, Key::Tab);
    assert_eq!(app.rename_case, RenameCase::Lowercase);
    assert!(matches!(press(&mut app, Key::Enter), Command::ScanForRename));
    assert_eq!(app.rename_prefix, "ab");
    app.input_purpose = InputPurpose::Filter;
    press(&mut app, Key::Tab);
    assert_eq!(app.rename_case, RenameCase::Lowercase);
    app.input_buffer.clear();
    press(&mut app, Key::Backspace);
    assert_eq!(app.input_buffer, "");
    press(&mut app, Key::Esc);
    assert_eq!(app.mode, AppMode::Explorer);
}

#[test]
fn confirming_a_filter_refreshes_and_reports() {
    let mut app = app_in("/d", &[("a.txt", false), ("b.md", false)]);
    press(&mut app, Key::Char('f'));
    type_text(&mut app, "md$");
    assert!(matches!(press(&mut app, Key::Enter), Command::Refresh(AfterRefresh::FilterApplied)));
    assert_eq!(app.search_query, "md$");
    finish_refresh(&mut app, Some(vec![item("/d", "a.txt", false), item("/d", "b.md", false)]), AfterRefresh::FilterApplied);
    assert_eq!(app.filtered_files.len(), 1);
    assert_eq!(app.message, "Applied regex filter: 'md$'");
    assert_eq!(app.mode, AppMode::Explorer);

    let mut app = app_in("/d", &[("a(b", false)]);
    press(&mut app, Key::Char('f'));
    type_text(&mut app, "(B");
    press(&mut app, Key::Enter);
    finish_refresh(&mut app, Some(vec![item("/d", "a(b", false)]), AfterRefresh::FilterApplied);
    assert_eq!(app.message, "(Plain text match — invalid regex)");
    assert_eq!(app.filtered_files.len(), 1);
    assert_eq!(app.mode, AppMode::Explorer);

    let mut app = app_in("/d", &[]);
    press(&mut app, Key::Char('f'));
    press(&mut app, Key::Enter);
    app.message = "idle".to_string();
    finish_refresh(&mut app, None, AfterRefresh::FilterApplied);
    assert_eq!(app.message, "idle");
    assert_eq!(app.mode, AppMode::Explorer);
}

#[test]
fn dry_run_confirms_cancels_and_scrolls() {
    let mut app = app_in("/d", &[]);
    app.mode = AppMode::DryRunPreview;
    app.pending_changes = (0..3)
        .map(|i| PendingChange {
            src: format!("/d/{}", i),
            dst: format!("/e/{}", i),
            description: String::new(),
            kind: ChangeKind::Move,
        })
        .collect();
    for _ in 0..5 {
        press(&mut app, Key::Char('j'));
    }
    assert_eq!(app.show_dry_run_scroll, 2);
    press(&mut app, Key::Up);
    assert_eq!(app.show_dry_run_scroll, 1);
    assert!(matches!(press(&mut app, Key::Char('Y')), Command::ApplyChanges));
    assert_eq!(app.pending_changes.len(), 3);
    press(&mut app, Key::Char('n'));
    assert!(app.pending_changes.is_empty());
    assert_eq!(app.mode, AppMode::Explorer);
    assert_eq!(app.message, "Operation cancelled safely.");
}

fn settings_app() -> App {
    let mut app = app_in("/d", &[]);
    press(&mut app, Key::Char('s'));
    app
}

#[test]
fn settings_navigate_and_edit_a_target() {
    let mut app = settings_app();
    press(&mut app, Key::Char('k'));
    assert_eq!(app.settings_selected, 0);
    press(&mut app, Key::Char('j'));
    assert_eq!(app.settings_categories[app.settings_selected], "Audio");
    press(&mut app, Key::Char('e'));
    assert_eq!(app.mode, AppMode::FilterInput);
    assert_eq!(app.input_purpose, InputPurpose::SettingsPath);
    assert_eq!(app.input_buffer, "Audio");
    app.input_buffer = "/music".to_string();
    press(&mut app, Key::Enter);
    assert_eq!(app.mode, AppMode::Settings);
    assert_eq!(app.config.sort_targets.get("Audio").map(|s| s.as_str()), Some("/music"));
    for _ in 0..20 {
        press(&mut app, Key::Down);
    }
    assert_eq!(app.settings_selected, 7);
    assert!(matches!(press(&mut app, Key::Char('s')), Command::SaveConfig));
    press(&mut app, Key::Esc);
    assert_eq!(app.mode, AppMode::Explorer);
}

#[test]
fn settings_edit_extensions_of_a_category() {
    let mut app = settings_app();
    press(&mut app, Key::Char('j'));
    press(&mut app, Key::Char('x'));
    assert_eq!(app.input_purpose, InputPurpose::EditExtensions);
    assert_eq!(app.input_buffer, "aac, flac, m4a, mp3, ogg, wav, wma");
    app.input_buffer = " .OPUS, mp3 ,, .m.4.a, jpg".to_string();
    press(&mut app, Key::Enter);
    assert_eq!(app.mode, AppMode::Settings);
    let ext = &app.config.extension_map;
    assert_eq!(ext.get("opus").map(|s| s.as_str()), Some("Audio"));
    assert_eq!(ext.get("mp3").map(|s| s.as_str()), Some("Audio"));
    assert_eq!(ext.get("m4a").map(|s| s.as_str()), Some("Audio"));
    assert_eq!(ext.get("jpg").map(|s| s.as_str()), Some("Audio"));
    assert!(!ext.contains_key("wav"));
    assert_eq!(ext.get("png").map(|s| s.as_str()), Some("Images"));
}

#[test]
fn settings_add_a_category() {
    let mut app = settings_app();
    press(&mut app, Key::Char('n'));
    assert_eq!(app.input_purpose, InputPurpose::NewCategory);
    type_text(&mut app, "  Music ");
    press(&mut app, Key::Enter);
    assert_eq!(app.mode, AppMode::Settings);
    assert_eq!(app.settings_categories.len(), 9);
    assert_eq!(app.settings_categories[app.settings_selected], "Music");
    assert_eq!(app.settings_categories[6], "Music");
    assert_eq!(app.config.sort_targets.get("Music").map(|s| s.as_str()), Some("Music"));
    press(&mut app, Key::Char('n'));
    type_text(&mut app, "Code");
    press(&mut app, Key::Enter);
    assert_eq!(app.settings_categories.len(), 9);
    assert_eq!(app.settings_categories[app.settings_selected], "Music");
    press(&mut app, Key::Char('n'));
    type_text(&mut app, "   ");
    press(&mut app, Key::Enter);
    assert_eq!(app.settings_categories.len(), 9);
}

#[test]
fn settings_delete_a_category() {
    let mut app = settings_app();
    for _ in 0..7 {
        press(&mut app, Key::Char('j'));
    }
    assert_eq!(app.settings_categories[7], "Videos");
    press(&mut app, Key::Delete);
    assert_eq!(app.settings_categories.len(), 7);
    assert_eq!(app.settings_selected, 6);
    assert!(!app.config.sort_targets.contains_key("Videos"));
    assert!(!app.config.extension_map.contains_key("mp4"));
    assert!(app.config.extension_map.contains_key("mp3"));
    press(&mut app, Key::Char('k'));
    press(&mut app, Key::Char('d'));
    assert_eq!(app.settings_selected, 5);
    assert_eq!(app.settings_categories[5], "Others");
    let mut app = app_in("/d", &[]);
    app.mode = AppMode::Settings;
    press(&mut app, Key::Char('d'));
    assert!(app.settings_categories.is_empty());
}

#[test]
fn refresh_without_a_listing_leaves_the_state() {
    let mut app = app_in("/d", &[("a", false)]);
    app.message = "m".to_string();
    finish_refresh(&mut app, None, AfterRefresh::Nothing);
    finish_refresh(&mut app, None, AfterRefresh::UndoDone);
    finish_refresh(&mut app, None, AfterRefresh::Reselect("/d/a".to_string()));
    assert_eq!(app.message, "m");
    assert_eq!(app.files.len(), 1);
    finish_refresh(&mut app, Some(vec![]), AfterRefresh::Nothing);
    assert!(app.files.is_empty());
}

#[test]
fn only_the_preview_applies_changes() {
    for mode in [AppMode::Explorer, AppMode::UtilityMenu, AppMode::FilterInput, AppMode::Settings] {
        for key in [Key::Char('y'), Key::Char('Y'), Key::Enter] {
            let mut app = app_in("/d", &[]);
            press(&mut app, Key::Char('s'));
            app.mode = mode;
            assert!(!matches!(press(&mut app, key), Command::ApplyChanges));
        }
    }
    let mut app = app_in("/d", &[]);
    app.mode = AppMode::DryRunPreview;
    assert!(matches!(press(&mut app, Key::Char('y')), Command::ApplyChanges));
    assert!(matches!(press(&mut app, Key::Esc), Command::Stay));
    assert_eq!(app.mode, AppMode::Explorer);
}

fn names(app: &App) -> Vec<String> {
    app.filtered_files.iter().map(|f| f.name.clone()).collect()
}

#[test]
fn typing_then_erasing_restores_the_buffer() {
    let mut app = app_in("/d", &[]);
    press(&mut app, Key::Char('f'));
    type_text(&mut app, "ab");
    for c in ['x', 'é', ','] {
        press(&mut app, Key::Char(c));
        press(&mut app, Key::Backspace);
        assert_eq!(app.input_buffer, "ab");
        assert_eq!(app.mode, AppMode::FilterInput);
    }
}

#[test]
fn extension_editor_unchanged_keeps_the_map() {
    let mut app = settings_app();
    let before = {
        let mut p = app.config.extension_map.pairs();
        p.sort();
        p
    };
    for _ in 0..8 {
        press(&mut app, Key::Char('x'));
        assert!(matches!(press(&mut app, Key::Enter), Command::Stay));
        assert_eq!(app.mode, AppMode::Settings);
        let mut after = app.config.extension_map.pairs();
        after.sort();
        assert_eq!(after, before);
        press(&mut app, Key::Char('j'));
    }
}

#[test]
fn entering_then_leaving_gives_back_the_list_and_selection() {
    let entries: Vec<(String, bool)> =
        (0..9).map(|i| (format!("dir{}", i), true)).chain([("z.txt".to_string(), false)]).collect();
    let listing = || entries.iter().map(|(n, d)| item("/d", n, *d)).collect::<Vec<_>>();
    let mut app = App::new("/d".to_string(), AppConfig::default());
    app.refresh_files(listing());
    app.selected_index = 7;
    let shown_before = names(&app);
    assert!(matches!(press(&mut app, Key::Enter), Command::Refresh(AfterRefresh::Nothing)));
    finish_refresh(&mut app, Some(vec![item("/d/dir7", "inner", false)]), AfterRefresh::Nothing);
    match press(&mut app, Key::Left) {
        Command::Refresh(then) => finish_refresh(&mut app, Some(listing()), then),
        _ => panic!("expected a refresh"),
    }
    assert_eq!(app.current_dir, "/d");
    assert_eq!(names(&app), shown_before);
    assert_eq!(app.selected_index, 7);
    assert_eq!(app.scroll_offset, 2);
}
