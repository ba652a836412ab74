//! Keyboard handling: what each key does in each mode.
//!
//! A key changes the state and returns a `Command` saying what outside work
//! is needed next (listing a directory, scanning, writing to disk, or
//! quitting); the caller does that work and hands its result back.

use vstd::prelude::*;
use crate::app::{
    cancelled, dir_entered, moved_down, moved_up, parent_entered, refreshed_but_message,
    refreshed_from, reselected, settings_loaded, undo_taken, utility_started, App,
};
use crate::config::without_value;
use crate::engine::{has_name, lemma_ascending_distinct, names_ascending, names_distinct, sort_names};
use crate::models::{AppMode, FileItem, InputPurpose, RenameCase, UndoLog, UtilityTab};
use crate::paths::path_parent;
use crate::text::{
    ascii_lower_text, chars_of, joined, join_strings, lowercase, owned, push_text, remove_dots, split_pieces,
    split_text, string_of, string_of_range, text_eq, to_lowercase, trim, trim_text, without_dots,
    Separator,
};

verus! {

/// A key press, as the modes tell keys apart.
#[derive(Clone, Copy, Debug, PartialEq, Eq, Structural)]
pub enum Key {
    Char(char),
    Esc,
    Enter,
    Up,
    Down,
    Left,
    Right,
    Backspace,
    Tab,
    Delete,
    Other,
}

/// What to do once the current directory has been listed again.
pub enum AfterRefresh {
    Nothing,
    /// Highlight the directory just left.
    Reselect(String),
    /// Report the filter just applied.
    FilterApplied,
    /// Report the undo just done.
    UndoDone,
}

/// The outside work a key asks for.
pub enum Command {
    /// Nothing more to do.
    Stay,
    /// Leave the program.
    Quit,
    /// List the current directory, then finish with `finish_refresh`.
    Refresh(AfterRefresh),
    /// Undo these changes on disk (the steps of `undo_plan`), then list and finish with `UndoDone`.
    Undo(Vec<UndoLog>),
    /// Scan the current directory for this utility, then hand the result to
    /// the matching `stage_*` or `show_*` method.
    Scan(UtilityTab),
    /// Read the current directory's entries, then call `execute_rename`.
    ScanForRename,
    /// Apply the staged changes, list, then call `confirm_pending_changes`.
    ApplyChanges,
    /// Write the configuration, then call `save_settings` if it was written.
    SaveConfig,
}

// ---------------------------------------------------------------------------
// Specifications of the modes
// ---------------------------------------------------------------------------

/// The rename case after `c`, as Tab cycles them.
pub open spec fn next_case(c: RenameCase) -> RenameCase {
    match c {
        RenameCase::Lowercase => RenameCase::Uppercase,
        RenameCase::Uppercase => RenameCase::CamelCase,
        RenameCase::CamelCase => RenameCase::Lowercase,
    }
}

/// The utility a digit key picks in the utility menu.
pub open spec fn tab_for(key: Key) -> Option<UtilityTab> {
    if key == Key::Char('1') {
        Some(UtilityTab::Sort)
    } else if key == Key::Char('2') {
        Some(UtilityTab::Rename)
    } else if key == Key::Char('3') {
        Some(UtilityTab::Clean)
    } else if key == Key::Char('4') {
        Some(UtilityTab::Duplicates)
    } else if key == Key::Char('5') {
        Some(UtilityTab::LargeFiles)
    } else {
        None
    }
}

/// An extension as typed in the settings: trimmed, lowercased, dots removed.
pub open spec fn cleaned_extension(piece: Seq<char>) -> Seq<char> {
    without_dots(lowercase(trim(piece)))
}

/// `m` with each non-empty cleaned piece mapped to `category`, in order.
pub open spec fn add_extensions(
    m: Map<Seq<char>, Seq<char>>,
    pieces: Seq<Seq<char>>,
    category: Seq<char>,
) -> Map<Seq<char>, Seq<char>>
    decreases pieces.len(),
{
    if pieces.len() == 0 {
        m
    } else {
        let m1 = add_extensions(m, pieces.drop_last(), category);
        let c = cleaned_extension(pieces.last());
        if c.len() > 0 {
            m1.insert(c, category)
        } else {
            m1
        }
    }
}

/// For each piece whose trimmed text is ASCII without uppercase letters,
/// lowercasing leaves the trimmed text as it is.
pub open spec fn lowercase_kept(pieces: Seq<Seq<char>>) -> bool {
    forall|i: int|
        0 <= i < pieces.len() && ascii_lower_text(trim(#[trigger] pieces[i])) ==> lowercase(
            trim(pieces[i]),
        ) == trim(pieces[i])
}

/// The views of some names.
pub open spec fn names_view(s: Seq<String>) -> Seq<Seq<char>> {
    s.map_values(|x: String| x@)
}


/// The explorer: moving, entering and leaving directories, opening the
/// filter, the utility menu and the settings, undoing, quitting.
pub open spec fn explorer_step(pre: App, post: App, key: Key, cmd: Command) -> bool {
    if key == Key::Char('q') || key == Key::Esc {
        cmd == Command::Quit && post == pre
    } else if key == Key::Char('j') || key == Key::Down {
        cmd == Command::Stay && post == moved_down(pre)
    } else if key == Key::Char('k') || key == Key::Up {
        cmd == Command::Stay && post == moved_up(pre)
    } else if key == Key::Char('h') || key == Key::Left || key == Key::Backspace {
        if path_parent(pre.current_dir@) is Some {
            &&& cmd == Command::Refresh(AfterRefresh::Reselect(pre.current_dir))
            &&& parent_entered(pre, post, Some(pre.current_dir))
        } else {
            cmd == Command::Stay && post == pre
        }
    } else if key == Key::Char('l') || key == Key::Right || key == Key::Enter {
        let sel = pre.selected_index;
        let entered = sel < pre.filtered_files@.len() && pre.filtered_files@[sel as int].is_dir;
        &&& dir_entered(pre, post, entered)
        &&& cmd == if entered {
            Command::Refresh(AfterRefresh::Nothing)
        } else {
            Command::Stay
        }
    } else if key == Key::Char('f') {
        &&& cmd == Command::Stay
        &&& post.input_buffer@ == pre.search_query@
        &&& post == (App {
            input_purpose: InputPurpose::Filter,
            input_buffer: post.input_buffer,
            mode: AppMode::FilterInput,
            ..pre
        })
    } else if key == Key::Char('u') {
        cmd == Command::Stay && post == (App { mode: AppMode::UtilityMenu, ..pre })
    } else if key == Key::Char('s') {
        &&& cmd == Command::Stay
        &&& post.mode == AppMode::Settings
        &&& settings_loaded(pre, App { mode: pre.mode, ..post })
    } else if key == Key::Char('z') {
        if pre.undo_stack@.len() > 0 {
            &&& cmd == Command::Undo(pre.undo_stack@.last())
            &&& undo_taken(pre, post, Some(pre.undo_stack@.last()))
        } else {
            cmd == Command::Stay && undo_taken(pre, post, None)
        }
    } else {
        cmd == Command::Stay && post == pre
    }
}

/// The utility menu: a digit picks and starts a tool; Esc or `q` closes it.
pub open spec fn utility_step(pre: App, post: App, key: Key, cmd: Command) -> bool {
    if key == Key::Esc || key == Key::Char('q') {
        cmd == Command::Stay && post == (App { mode: AppMode::Explorer, ..pre })
    } else if tab_for(key) is Some {
        let tab = tab_for(key)->0;
        let picked = App { utility_tab: tab, ..pre };
        if tab == UtilityTab::Rename {
            cmd == Command::Stay && utility_started(picked, post, None)
        } else {
            cmd == Command::Scan(tab) && post == picked
        }
    } else {
        cmd == Command::Stay && post == pre
    }
}

/// Confirming the input box, by what it was opened for.
pub open spec fn input_confirmed(pre: App, post: App, cmd: Command) -> bool {
    let sel = pre.settings_selected as int;
    let cats = pre.settings_categories@;
    match pre.input_purpose {
        InputPurpose::Filter => {
            &&& cmd == Command::Refresh(AfterRefresh::FilterApplied)
            &&& post.search_query@ == pre.input_buffer@
            &&& post == (App { search_query: post.search_query, ..pre })
        },
        InputPurpose::RenamePrefix => {
            &&& cmd == Command::ScanForRename
            &&& post.rename_prefix@ == pre.input_buffer@
            &&& post == (App { rename_prefix: post.rename_prefix, ..pre })
        },
        InputPurpose::SettingsPath => {
            &&& cmd == Command::Stay
            &&& sel < cats.len() ==> {
                &&& post.config.sort_targets@ == pre.config.sort_targets@.insert(
                    cats[sel]@,
                    pre.input_buffer@,
                )
                &&& post.config.extension_map == pre.config.extension_map
                &&& post == (App { config: post.config, mode: AppMode::Settings, ..pre })
            }
            &&& sel >= cats.len() ==> post == (App { mode: AppMode::Settings, ..pre })
        },
        InputPurpose::EditExtensions => {
            &&& cmd == Command::Stay
            &&& sel < cats.len() ==> {
                &&& post.config.extension_map@ == add_extensions(
                    without_value(pre.config.extension_map@, cats[sel]@),
                    split_pieces(pre.input_buffer@, Separator::Comma),
                    cats[sel]@,
                )
                &&& lowercase_kept(split_pieces(pre.input_buffer@, Separator::Comma))
                &&& post.config.sort_targets == pre.config.sort_targets
                &&& post == (App { config: post.config, mode: AppMode::Settings, ..pre })
            }
            &&& sel >= cats.len() ==> post == (App { mode: AppMode::Settings, ..pre })
        },
        InputPurpose::NewCategory => {
            let name = trim(pre.input_buffer@);
            &&& cmd == Command::Stay
            &&& (name.len() > 0 && !has_name(cats, name)) ==> {
                &&& names_ascending(post.settings_categories@)
                &&& forall|k: Seq<char>|
                    has_name(post.settings_categories@, k) <==> (has_name(cats, k) || k == name)
                &&& post.settings_selected < post.settings_categories@.len()
                &&& post.settings_categories@[post.settings_selected as int]@ == name
                &&& post.config.sort_targets@ == pre.config.sort_targets@.insert(name, name)
                &&& post.config.extension_map == pre.config.extension_map
                &&& post == (App {
                    config: post.config,
                    settings_categories: post.settings_categories,
                    settings_selected: post.settings_selected,
                    mode: AppMode::Settings,
                    ..pre
                })
            }
            &&& !(name.len() > 0 && !has_name(cats, name)) ==> post == (App {
                mode: AppMode::Settings,
                ..pre
            })
        },
    }
}

/// The input box: typing, deleting, cycling the rename case, confirming,
/// cancelling.
pub open spec fn input_step(pre: App, post: App, key: Key, cmd: Command) -> bool {
    if key == Key::Esc {
        cmd == Command::Stay && post == (App { mode: AppMode::Explorer, ..pre })
    } else if key == Key::Tab {
        &&& cmd == Command::Stay
        &&& pre.input_purpose == InputPurpose::RenamePrefix ==> post == (App {
            rename_case: next_case(pre.rename_case),
            ..pre
        })
        &&& pre.input_purpose != InputPurpose::RenamePrefix ==> post == pre
    } else if key == Key::Enter {
        input_confirmed(pre, post, cmd)
    } else if key is Char {
        &&& cmd == Command::Stay
        &&& post.input_buffer@ == pre.input_buffer@.push(key->Char_0)
        &&& post == (App { input_buffer: post.input_buffer, ..pre })
    } else if key == Key::Backspace {
        &&& cmd == Command::Stay
        &&& post.input_buffer@ == if pre.input_buffer@.len() > 0 {
            pre.input_buffer@.drop_last()
        } else {
            pre.input_buffer@
        }
        &&& post == (App { input_buffer: post.input_buffer, ..pre })
    } else {
        cmd == Command::Stay && post == pre
    }
}

/// The dry-run preview: confirm, cancel, scroll.
pub open spec fn dry_run_step(pre: App, post: App, key: Key, cmd: Command) -> bool {
    if key == Key::Char('y') || key == Key::Char('Y') {
        cmd == Command::ApplyChanges && post == pre
    } else if key == Key::Char('n') || key == Key::Char('N') || key == Key::Esc {
        cmd == Command::Stay && cancelled(pre, post)
    } else if key == Key::Char('j') || key == Key::Down {
        &&& cmd == Command::Stay
        &&& post == if pre.show_dry_run_scroll + 1 < pre.pending_changes@.len() {
            App { show_dry_run_scroll: (pre.show_dry_run_scroll + 1) as usize, ..pre }
        } else {
            pre
        }
    } else if key == Key::Char('k') || key == Key::Up {
        &&& cmd == Command::Stay
        &&& post == if pre.show_dry_run_scroll > 0 {
            App { show_dry_run_scroll: (pre.show_dry_run_scroll - 1) as usize, ..pre }
        } else {
            pre
        }
    } else {
        cmd == Command::Stay && post == pre
    }
}

/// The settings screen: moving between categories, opening the editors,
/// deleting a category, saving.
pub open spec fn settings_step(pre: App, post: App, key: Key, cmd: Command) -> bool {
    let sel = pre.settings_selected as int;
    let cats = pre.settings_categories@;
    if key == Key::Esc || key == Key::Char('q') {
        cmd == Command::Stay && post == (App { mode: AppMode::Explorer, ..pre })
    } else if key == Key::Char('j') || key == Key::Down {
        &&& cmd == Command::Stay
        &&& post == if sel + 1 < cats.len() {
            App { settings_selected: (sel + 1) as usize, ..pre }
        } else {
            pre
        }
    } else if key == Key::Char('k') || key == Key::Up {
        &&& cmd == Command::Stay
        &&& post == if sel > 0 {
            App { settings_selected: (sel - 1) as usize, ..pre }
        } else {
            pre
        }
    } else if key == Key::Char('e') || key == Key::Enter {
        &&& cmd == Command::Stay
        &&& sel < cats.len() ==> {
            &&& post.input_buffer@ == if pre.config.sort_targets@.contains_key(cats[sel]@) {
                pre.config.sort_targets@[cats[sel]@]
            } else {
                Seq::empty()
            }
            &&& post == (App {
                input_purpose: InputPurpose::SettingsPath,
                input_buffer: post.input_buffer,
                mode: AppMode::FilterInput,
                ..pre
            })
        }
        &&& sel >= cats.len() ==> post == pre
    } else if key == Key::Char('x') {
        &&& cmd == Command::Stay
        &&& sel < cats.len() ==> {
            &&& exists|exts: Seq<String>|
                {
                    &&& names_ascending(exts)
                    &&& forall|k: Seq<char>|
                        has_name(exts, k) <==> (pre.config.extension_map@.contains_key(k)
                            && pre.config.extension_map@[k] == cats[sel]@)
                    &&& post.input_buffer@ == joined(names_view(exts), ", "@)
                }
            &&& post == (App {
                input_purpose: InputPurpose::EditExtensions,
                input_buffer: post.input_buffer,
                mode: AppMode::FilterInput,
                ..pre
            })
        }
        &&& sel >= cats.len() ==> post == pre
    } else if key == Key::Char('n') {
        &&& cmd == Command::Stay
        &&& post.input_buffer@.len() == 0
        &&& post == (App {
            input_purpose: InputPurpose::NewCategory,
            input_buffer: post.input_buffer,
            mode: AppMode::FilterInput,
            ..pre
        })
    } else if key == Key::Char('d') || key == Key::Delete {
        &&& cmd == Command::Stay
        &&& cats.len() > 0 ==> {
            let cat = cats[sel]@;
            let remaining = (cats.len() - 1) as int;
            &&& names_view(post.settings_categories@) == names_view(cats.remove(sel))
            &&& post.config.sort_targets@ == pre.config.sort_targets@.remove(cat)
            &&& post.config.extension_map@ == without_value(pre.config.extension_map@, cat)
            &&& post.settings_selected == if sel >= remaining && sel > 0 {
                (sel - 1) as usize
            } else {
                sel as usize
            }
            &&& post == (App {
                config: post.config,
                settings_categories: post.settings_categories,
                settings_selected: post.settings_selected,
                ..pre
            })
        }
        &&& cats.len() == 0 ==> post == pre
    } else if key == Key::Char('s') {
        cmd == Command::SaveConfig && post == pre
    } else {
        cmd == Command::Stay && post == pre
    }
}

/// A key in the current mode.
pub open spec fn key_step(pre: App, post: App, key: Key, cmd: Command) -> bool {
    match pre.mode {
        AppMode::Explorer => explorer_step(pre, post, key, cmd),
        AppMode::UtilityMenu => utility_step(pre, post, key, cmd),
        AppMode::FilterInput => input_step(pre, post, key, cmd),
        AppMode::DryRunPreview => dry_run_step(pre, post, key, cmd),
        AppMode::Settings => settings_step(pre, post, key, cmd),
    }
}

// ---------------------------------------------------------------------------
// The handlers
// ---------------------------------------------------------------------------

/// Handles a key press in the current mode and says what outside work is
/// needed next.
pub fn handle_key_event(app: &mut App, key: Key) -> (cmd: Command)
    requires
        old(app).wf(),
    ensures
        final(app).wf(),
        key_step(*old(app), *final(app), key, cmd),
{
    match app.mode {
        AppMode::Explorer => handle_explorer_keys(app, key),
        AppMode::UtilityMenu => handle_utility_menu_keys(app, key),
        AppMode::FilterInput => handle_filter_input_keys(app, key),
        AppMode::DryRunPreview => handle_dry_run_keys(app, key),
        AppMode::Settings => handle_settings_keys(app, key),
    }
}

fn handle_explorer_keys(app: &mut App, key: Key) -> (cmd: Command)
    requires
        old(app).wf(),
    ensures
        final(app).wf(),
        explorer_step(*old(app), *final(app), key, cmd),
{
    if key == Key::Char('q') || key == Key::Esc {
        Command::Quit
    } else if key == Key::Char('j') || key == Key::Down {
        app.move_selection_down();
        Command::Stay
    } else if key == Key::Char('k') || key == Key::Up {
        app.move_selection_up();
        Command::Stay
    } else if key == Key::Char('h') || key == Key::Left || key == Key::Backspace {
        match app.go_to_parent() {
            Some(old_dir) => Command::Refresh(AfterRefresh::Reselect(old_dir)),
            None => Command::Stay,
        }
    } else if key == Key::Char('l') || key == Key::Right || key == Key::Enter {
        if app.go_into_dir() {
            Command::Refresh(AfterRefresh::Nothing)
        } else {
            Command::Stay
        }
    } else if key == Key::Char('f') {
        app.input_purpose = InputPurpose::Filter;
        app.input_buffer = app.search_query.clone();
        app.mode = AppMode::FilterInput;
        Command::Stay
    } else if key == Key::Char('u') {
        app.mode = AppMode::UtilityMenu;
        Command::Stay
    } else if key == Key::Char('s') {
        app.load_settings();
        app.mode = AppMode::Settings;
        Command::Stay
    } else if key == Key::Char('z') {
        match app.undo_last() {
            Some(logs) => Command::Undo(logs),
            None => Command::Stay,
        }
    } else {
        Command::Stay
    }
}

fn handle_utility_menu_keys(app: &mut App, key: Key) -> (cmd: Command)
    requires
        old(app).wf(),
    ensures
        final(app).wf(),
        utility_step(*old(app), *final(app), key, cmd),
{
    if key == Key::Esc || key == Key::Char('q') {
        app.mode = AppMode::Explorer;
        return Command::Stay;
    }
    let tab = if key == Key::Char('1') {
        UtilityTab::Sort
    } else if key == Key::Char('2') {
        UtilityTab::Rename
    } else if key == Key::Char('3') {
        UtilityTab::Clean
    } else if key == Key::Char('4') {
        UtilityTab::Duplicates
    } else if key == Key::Char('5') {
        UtilityTab::LargeFiles
    } else {
        return Command::Stay;
    };
    app.utility_tab = tab;
    match app.run_utility_logic() {
        Some(t) => Command::Scan(t),
        None => Command::Stay,
    }
}

fn handle_dry_run_keys(app: &mut App, key: Key) -> (cmd: Command)
    requires
        old(app).wf(),
    ensures
        final(app).wf(),
        dry_run_step(*old(app), *final(app), key, cmd),
{
    if key == Key::Char('y') || key == Key::Char('Y') {
        Command::ApplyChanges
    } else if key == Key::Char('n') || key == Key::Char('N') || key == Key::Esc {
        app.cancel_pending_changes();
        Command::Stay
    } else if key == Key::Char('j') || key == Key::Down {
        if app.show_dry_run_scroll < app.pending_changes.len() && app.show_dry_run_scroll + 1
            < app.pending_changes.len() {
            app.show_dry_run_scroll += 1;
        }
        Command::Stay
    } else if key == Key::Char('k') || key == Key::Up {
        if app.show_dry_run_scroll > 0 {
            app.show_dry_run_scroll -= 1;
        }
        Command::Stay
    } else {
        Command::Stay
    }
}

fn without_last_char(s: &String) -> (r: String)
    ensures
        r@ == if s@.len() > 0 {
            s@.drop_last()
        } else {
            s@
        },
{
    let v = chars_of(s.as_str());
    if v.len() == 0 {
        return s.clone();
    }
    let r = string_of_range(v.as_slice(), 0, v.len() - 1);
    assert(v@.subrange(0, v@.len() - 1) =~= v@.drop_last());
    r
}

fn position_of_name(names: &Vec<String>, name: &String) -> (r: Option<usize>)
    ensures
        r matches Some(i) ==> i < names@.len() && names@[i as int]@ == name@,
        r is None ==> !has_name(names@, name@),
{
    let n = names.len();
    let mut i: usize = 0;
    while i < n
        invariant
            n == names@.len(),
            i <= n,
            forall|t: int| 0 <= t < i ==> #[trigger] names@[t]@ != name@,
        decreases n - i,
    {
        if text_eq(names[i].as_str(), name.as_str()) {
            return Some(i);
        }
        i += 1;
    }
    None
}

fn add_extension_list(app: &mut App, category: &String)
    requires
        old(app).wf(),
    ensures
        final(app).wf(),
        final(app).config.extension_map@ == add_extensions(
            old(app).config.extension_map@,
            split_pieces(old(app).input_buffer@, Separator::Comma),
            category@,
        ),
        lowercase_kept(split_pieces(old(app).input_buffer@, Separator::Comma)),
        *final(app) == (App { config: final(app).config, ..*old(app) }),
        final(app).config.sort_targets == old(app).config.sort_targets,
{
    let pieces = split_text(app.input_buffer.as_str(), Separator::Comma);
    let ghost ps = pieces@.map_values(|w: Vec<char>| w@);
    let ghost start = *app;
    let n = pieces.len();
    let mut i: usize = 0;
    assert(ps.take(0) =~= Seq::<Seq<char>>::empty());
    while i < n
        invariant
            n == pieces@.len() == ps.len(),
            ps == pieces@.map_values(|w: Vec<char>| w@),
            ps == split_pieces(start.input_buffer@, Separator::Comma),
            i <= n,
            app.wf(),
            app.config.extension_map@ == add_extensions(
                start.config.extension_map@,
                ps.take(i as int),
                category@,
            ),
            lowercase_kept(ps.take(i as int)),
            *app == (App { config: app.config, ..start }),
            app.config.sort_targets == start.config.sort_targets,
        decreases n - i,
    {
        assert(ps.take(i + 1).drop_last() =~= ps.take(i as int));
        assert(ps.take(i + 1).last() == pieces@[i as int]@);
        let piece = string_of(pieces[i].as_slice());
        let trimmed = trim_text(piece.as_str());
        let lower = to_lowercase(trimmed.as_str());
        assert(lowercase_kept(ps.take(i + 1))) by {
            assert forall|t: int|
                0 <= t < i + 1 && ascii_lower_text(trim(#[trigger] ps.take(i + 1)[t])) implies lowercase(
                trim(ps.take(i + 1)[t]),
            ) == trim(ps.take(i + 1)[t]) by {
                if t < i {
                    assert(ps.take(i + 1)[t] == ps.take(i as int)[t]);
                }
            }
        }
        let cleaned = remove_dots(lower.as_str());
        if cleaned.as_str().is_empty() {
        } else {
            app.config.extension_map.insert(cleaned, category.clone());
        }
        i += 1;
    }
    assert(ps.take(n as int) =~= ps);
}

fn confirm_new_category(app: &mut App)
    requires
        old(app).wf(),
        old(app).input_purpose == InputPurpose::NewCategory,
    ensures
        final(app).wf(),
        input_confirmed(*old(app), *final(app), Command::Stay),
{
    let name = trim_text(app.input_buffer.as_str());
    if !name.as_str().is_empty() {
        match position_of_name(&app.settings_categories, &name) {
            Some(_) => {},
            None => {
                let ghost before = app.settings_categories@;
                let mut cats = app.settings_categories.clone();
                cats.push(name.clone());
                proof {
                    assert(cats@ == before.push(name));
                    assert forall|a: int, b: int|
                        0 <= a < b < cats@.len() implies #[trigger] cats@[a]@
                        != #[trigger] cats@[b]@ by {
                        if b == before.len() {
                            assert(cats@[a] == before[a]);
                        }
                    }
                }
                let ghost grown = cats@;
                let sorted = sort_names(cats);
                proof {
                    assert forall|k: Seq<char>|
                        has_name(sorted@, k) <==> (has_name(before, k) || k == name@) by {
                        if has_name(grown, k) {
                            let a = choose|a: int| 0 <= a < grown.len() && #[trigger] grown[a]@ == k;
                            if a < before.len() {
                                assert(before[a] == grown[a]);
                            }
                        }
                        if has_name(before, k) {
                            let a = choose|a: int| 0 <= a < before.len() && #[trigger] before[a]@ == k;
                            assert(grown[a] == before[a]);
                        }
                        if k == name@ {
                            assert(grown[before.len() as int] == name);
                        }
                    }
                    assert(has_name(sorted@, name@));
                }
                app.settings_categories = sorted;
                proof {
                    lemma_ascending_distinct(app.settings_categories@);
                }
                app.config.sort_targets.insert(name.clone(), name.clone());
                match position_of_name(&app.settings_categories, &name) {
                    Some(idx) => {
                        app.settings_selected = idx;
                    },
                    None => {},
                }
            },
        }
    }
    app.mode = AppMode::Settings;
}

fn confirm_input(app: &mut App) -> (cmd: Command)
    requires
        old(app).wf(),
    ensures
        final(app).wf(),
        input_confirmed(*old(app), *final(app), cmd),
{
    match app.input_purpose {
        InputPurpose::Filter => {
            app.search_query = app.input_buffer.clone();
            Command::Refresh(AfterRefresh::FilterApplied)
        },
        InputPurpose::RenamePrefix => {
            app.rename_prefix = app.input_buffer.clone();
            Command::ScanForRename
        },
        InputPurpose::SettingsPath => {
            if app.settings_selected < app.settings_categories.len() {
                let category = app.settings_categories[app.settings_selected].clone();
                let target = app.input_buffer.clone();
                app.config.sort_targets.insert(category, target);
            }
            app.mode = AppMode::Settings;
            Command::Stay
        },
        InputPurpose::EditExtensions => {
            if app.settings_selected < app.settings_categories.len() {
                let category = app.settings_categories[app.settings_selected].clone();
                app.config.extension_map.retain_other_values(category.as_str());
                add_extension_list(app, &category);
            }
            app.mode = AppMode::Settings;
            Command::Stay
        },
        InputPurpose::NewCategory => {
            confirm_new_category(app);
            Command::Stay
        },
    }
}

fn handle_filter_input_keys(app: &mut App, key: Key) -> (cmd: Command)
    requires
        old(app).wf(),
    ensures
        final(app).wf(),
        input_step(*old(app), *final(app), key, cmd),
{
    if key == Key::Esc {
        app.mode = AppMode::Explorer;
        Command::Stay
    } else if key == Key::Tab {
        if app.input_purpose == InputPurpose::RenamePrefix {
            app.rename_case = match app.rename_case {
                RenameCase::Lowercase => RenameCase::Uppercase,
                RenameCase::Uppercase => RenameCase::CamelCase,
                RenameCase::CamelCase => RenameCase::Lowercase,
            };
        }
        Command::Stay
    } else if key == Key::Enter {
        confirm_input(app)
    } else if key == Key::Backspace {
        app.input_buffer = without_last_char(&app.input_buffer);
        Command::Stay
    } else {
        match key {
            Key::Char(c) => {
                let mut buffer = app.input_buffer.clone();
                crate::text::push_char(&mut buffer, c);
                app.input_buffer = buffer;
            },
            _ => {},
        }
        Command::Stay
    }
}

fn open_extension_editor(app: &mut App)
    requires
        old(app).wf(),
    ensures
        final(app).wf(),
        settings_step(*old(app), *final(app), Key::Char('x'), Command::Stay),
{
    if app.settings_selected < app.settings_categories.len() {
        let category = &app.settings_categories[app.settings_selected];
        let exts = app.config.extension_map.keys_with_value(category.as_str());
        let sorted = sort_names(exts);
        let text = join_strings(&sorted, ", ");
        proof {
            assert forall|k: Seq<char>|
                has_name(sorted@, k) <==> (app.config.extension_map@.contains_key(k)
                    && app.config.extension_map@[k] == category@) by {
                if has_name(exts@, k) {
                    let a = choose|a: int| 0 <= a < exts@.len() && #[trigger] exts@[a]@ == k;
                }
                if app.config.extension_map@.contains_key(k) && app.config.extension_map@[k]
                    == category@ {
                    let a = choose|a: int| 0 <= a < exts@.len() && #[trigger] exts@[a]@ == k;
                    assert(has_name(exts@, k));
                }
            }
            assert(names_view(sorted@) == sorted@.map_values(|x: String| x@));
        }
        let ghost cat = category@;
        let ghost m = app.config.extension_map@;
        app.input_purpose = InputPurpose::EditExtensions;
        app.input_buffer = text;
        app.mode = AppMode::FilterInput;
        proof {
            assert(names_ascending(sorted@));
            assert(app.input_buffer@ == joined(names_view(sorted@), ", "@));
            assert(exists|exts: Seq<String>|
                {
                    &&& names_ascending(exts)
                    &&& forall|k: Seq<char>|
                        has_name(exts, k) <==> (m.contains_key(k) && m[k] == cat)
                    &&& app.input_buffer@ == joined(names_view(exts), ", "@)
                }) by {
                assert(forall|k: Seq<char>|
                        has_name(sorted@, k) <==> (m.contains_key(k) && m[k] == cat));
            }
        }
    }
}

fn delete_category(app: &mut App)
    requires
        old(app).wf(),
    ensures
        final(app).wf(),
        settings_step(*old(app), *final(app), Key::Char('d'), Command::Stay),
{
    if app.settings_categories.len() > 0 {
        let sel = app.settings_selected;
        let category = app.settings_categories.remove(sel);
        app.config.sort_targets.remove(category.as_str());
        app.config.extension_map.retain_other_values(category.as_str());
        if app.settings_selected >= app.settings_categories.len() && app.settings_selected > 0 {
            app.settings_selected -= 1;
        }
    }
}

fn handle_settings_keys(app: &mut App, key: Key) -> (cmd: Command)
    requires
        old(app).wf(),
    ensures
        final(app).wf(),
        settings_step(*old(app), *final(app), key, cmd),
{
    if key == Key::Esc || key == Key::Char('q') {
        app.mode = AppMode::Explorer;
        Command::Stay
    } else if key == Key::Char('j') || key == Key::Down {
        if app.settings_selected < app.settings_categories.len() && app.settings_selected + 1
            < app.settings_categories.len() {
            app.settings_selected += 1;
        }
        Command::Stay
    } else if key == Key::Char('k') || key == Key::Up {
        if app.settings_selected > 0 {
            app.settings_selected -= 1;
        }
        Command::Stay
    } else if key == Key::Char('e') || key == Key::Enter {
        if app.settings_selected < app.settings_categories.len() {
            let category = &app.settings_categories[app.settings_selected];
            let current = match app.config.sort_targets.get(category.as_str()) {
                Some(t) => t.clone(),
                None => String::new(),
            };
            app.input_purpose = InputPurpose::SettingsPath;
            app.input_buffer = current;
            app.mode = AppMode::FilterInput;
        }
        Command::Stay
    } else if key == Key::Char('x') {
        open_extension_editor(app);
        Command::Stay
    } else if key == Key::Char('n') {
        app.input_purpose = InputPurpose::NewCategory;
        app.input_buffer = String::new();
        app.mode = AppMode::FilterInput;
        Command::Stay
    } else if key == Key::Char('d') || key == Key::Delete {
        delete_category(app);
        Command::Stay
    } else if key == Key::Char('s') {
        Command::SaveConfig
    } else {
        Command::Stay
    }
}

/// The filter just applied reported: a valid, non-empty regex filter is
/// announced; back to the explorer either way.
pub open spec fn filter_reported(pre: App, post: App) -> bool {
    if pre.regex_valid && pre.search_query@.len() > 0 {
        &&& post.message@ == "Applied regex filter: '"@ + pre.search_query@ + "'"@
        &&& post == (App { message: post.message, mode: AppMode::Explorer, ..pre })
    } else {
        post == (App { mode: AppMode::Explorer, ..pre })
    }
}

/// `post` is `pre` after listing the current directory (`listing`, or
/// `None` where it could not be read) and doing `then`.
pub open spec fn refresh_finished(
    pre: App,
    post: App,
    listing: Option<Vec<FileItem>>,
    then: AfterRefresh,
) -> bool {
    match then {
        AfterRefresh::Nothing => match listing {
            Some(l) => refreshed_from(pre, post, l@),
            None => post == pre,
        },
        AfterRefresh::Reselect(d) => match listing {
            Some(l) => exists|mid: App| refreshed_from(pre, mid, l@) && reselected(mid, post, d@),
            None => post == pre,
        },
        AfterRefresh::FilterApplied => match listing {
            Some(l) => exists|mid: App| refreshed_from(pre, mid, l@) && filter_reported(mid, post),
            None => filter_reported(pre, post),
        },
        AfterRefresh::UndoDone => match listing {
            Some(l) => {
                &&& refreshed_but_message(pre, post, l@)
                &&& post.message@ == "Last operation successfully reversed."@
            },
            None => post == pre,
        },
    }
}

/// Finishes an operation once the current directory has been listed again
/// (`listing`, or `None` where reading it failed).
pub fn finish_refresh(app: &mut App, listing: Option<Vec<FileItem>>, then: AfterRefresh)
    requires
        old(app).wf(),
    ensures
        final(app).wf(),
        refresh_finished(*old(app), *final(app), listing, then),
{
    match then {
        AfterRefresh::Nothing => {
            match listing {
                Some(l) => app.refresh_files(l),
                None => {},
            }
        },
        AfterRefresh::Reselect(d) => {
            match listing {
                Some(l) => {
                    app.refresh_files(l);
                    let ghost mid = *app;
                    app.reselect(d.as_str());
                    assert(refreshed_from(*old(app), mid, l@) && reselected(mid, *app, d@));
                },
                None => {},
            }
        },
        AfterRefresh::FilterApplied => {
            match listing {
                Some(l) => app.refresh_files(l),
                None => {},
            }
            let ghost mid = *app;
            if app.regex_valid && !app.search_query.as_str().is_empty() {
                let mut m = owned("Applied regex filter: '");
                push_text(&mut m, app.search_query.as_str());
                push_text(&mut m, "'");
                app.message = m;
            }
            app.mode = AppMode::Explorer;
            assert(filter_reported(mid, *app));
        },
        AfterRefresh::UndoDone => {
            match listing {
                Some(l) => {
                    app.refresh_files(l);
                    let ghost mid = *app;
                    app.message = owned("Last operation successfully reversed.");
                    assert(App { message: mid.message, ..*app } == mid);
                },
                None => {},
            }
        },
    }
}

} // verus!
