//! The file manager's state and the operations on it.
//!
//! Operations that need the disk are split: the state change that decides
//! what to read or write happens here and says what is needed; the caller
//! does the reading or writing and hands the result back to the method that
//! finishes the operation.

use vstd::prelude::*;
use crate::config::AppConfig;
use crate::engine::{
    batch_rename_dry_run, changes_view, duplicate_groups, filter_files, find_duplicate_files,
    find_large_files, generate_cleanup_changes, generate_sort_changes, larger_first, listing_order,
    name_passes, nested_view, order_listing, rename_plan,
};
use crate::models::{
    AppMode, DirEntry, FileItem, InputPurpose, PendingChange, RenameCase, RightPanelView,
    UndoLog, UtilityTab,
};
use crate::order::stable_sort;
use crate::paths::{parent_of, path_eq, path_parent, same_path};
use crate::pattern::regex_compiles;
use crate::text::{decimal, decimal_string, owned, push_text};

verus! {

/// The whole state of the file manager.
pub struct App {
    pub current_dir: String,
    pub files: Vec<FileItem>,
    pub filtered_files: Vec<FileItem>,
    pub selected_index: usize,
    pub scroll_offset: usize,
    pub mode: AppMode,
    pub undo_stack: Vec<Vec<UndoLog>>,
    pub config: AppConfig,
    pub search_query: String,
    pub pending_changes: Vec<PendingChange>,
    pub utility_tab: UtilityTab,
    pub rename_prefix: String,
    pub rename_case: RenameCase,
    pub message: String,
    pub right_panel_view: RightPanelView,
    pub large_files: Vec<(String, u64)>,
    pub duplicates: Vec<Vec<String>>,
    pub input_purpose: InputPurpose,
    pub input_buffer: String,
    pub settings_categories: Vec<String>,
    pub settings_selected: usize,
    pub show_dry_run_scroll: usize,
    pub regex_valid: bool,
}

/// The files shown for a query: all of them for an empty query, otherwise
/// those whose names pass it.
pub open spec fn visible_files(files: Seq<FileItem>, query: Seq<char>) -> Seq<FileItem> {
    if query.len() == 0 {
        files
    } else {
        files.filter(|f: FileItem| name_passes(query, f.name@))
    }
}

/// A selection kept within a list of `len` entries: the last entry when it
/// was past the end (0 for an empty list).
pub open spec fn clamp_selection(sel: usize, len: nat) -> usize {
    if sel >= len {
        if len == 0 {
            0
        } else {
            (len - 1) as usize
        }
    } else {
        sel
    }
}

/// The first position of an entry whose path equals `p`.
pub open spec fn path_position(s: Seq<FileItem>, p: Seq<char>) -> Option<int>
    decreases s.len(),
{
    if s.len() == 0 {
        None
    } else if path_eq(s[0].path@, p) {
        Some(0)
    } else {
        match path_position(s.drop_first(), p) {
            Some(i) => Some(i + 1),
            None => None,
        }
    }
}

/// A position moved `d` further on.
pub open spec fn shifted(o: Option<int>, d: int) -> Option<int> {
    match o {
        Some(k) => Some(k + d),
        None => None,
    }
}

/// The total size of some files.
pub open spec fn total_size(s: Seq<(String, u64)>) -> nat
    decreases s.len(),
{
    if s.len() == 0 {
        0
    } else {
        total_size(s.drop_last()) + s.last().1 as nat
    }
}

/// `pre` filtered: `post` is `pre` with the files re-filtered for the query.
pub open spec fn filtered_from(pre: App, post: App) -> bool {
    let shown = visible_files(pre.files@, pre.search_query@);
    let fell_back = pre.search_query@.len() > 0 && !regex_compiles(pre.search_query@);
    &&& post.filtered_files@ == shown
    &&& post.regex_valid == !fell_back
    &&& post.selected_index == clamp_selection(pre.selected_index, shown.len())
    &&& fell_back ==> post.message@ == "(Plain text match — invalid regex)"@
    &&& !fell_back ==> post.message == pre.message
    &&& post == (App {
        filtered_files: post.filtered_files,
        regex_valid: post.regex_valid,
        selected_index: post.selected_index,
        message: post.message,
        ..pre
    })
}

/// `post` is `pre` after reading `listing` as the current directory's
/// entries: the files in listing order, re-filtered, and the selection reset
/// when nothing is shown.
pub open spec fn refreshed_from(pre: App, post: App, listing: Seq<FileItem>) -> bool {
    let with_files = App { files: post.files, ..pre };
    let shown = visible_files(post.files@, pre.search_query@);
    &&& post.files@ == stable_sort(listing, listing_order())
    &&& filtered_from(with_files, App { scroll_offset: pre.scroll_offset, ..post })
    &&& post.scroll_offset == if shown.len() == 0 {
        0
    } else {
        pre.scroll_offset
    }
}

/// `post` is `pre` refreshed from `listing`, whatever its message says.
pub open spec fn refreshed_but_message(pre: App, post: App, listing: Seq<FileItem>) -> bool {
    exists|m: String| refreshed_from(pre, App { message: m, ..post }, listing)
}

/// The selection moved one entry down, wrapping to the top.
pub open spec fn moved_down(a: App) -> App {
    let len = a.filtered_files@.len();
    if len == 0 {
        a
    } else if a.selected_index + 1 < len {
        App { selected_index: (a.selected_index + 1) as usize, ..a }
    } else {
        App { selected_index: 0, scroll_offset: 0, ..a }
    }
}

/// The selection moved one entry up, wrapping to the bottom.
pub open spec fn moved_up(a: App) -> App {
    let len = a.filtered_files@.len();
    if len == 0 {
        a
    } else if a.selected_index > 0 {
        App { selected_index: (a.selected_index - 1) as usize, ..a }
    } else {
        App { selected_index: (len - 1) as usize, ..a }
    }
}

/// The viewport adjusted so that the selection is inside a window of
/// `height` rows.
pub open spec fn viewport_adjusted(a: App, height: usize) -> App {
    let len = a.filtered_files@.len();
    if len == 0 {
        App { scroll_offset: 0, ..a }
    } else {
        let sel = clamp_selection(a.selected_index, len);
        let scroll = if sel < a.scroll_offset {
            sel
        } else if sel >= a.scroll_offset + height {
            (sel - height + 1) as usize
        } else {
            a.scroll_offset
        };
        App { selected_index: sel, scroll_offset: scroll, ..a }
    }
}

/// A staged batch: the dry-run preview when there is something to confirm,
/// otherwise the explorer with `empty_message`.
pub open spec fn staged(
    pre: App,
    post: App,
    changes: Seq<PendingChange>,
    empty_message: Seq<char>,
    count_before: Seq<char>,
    count_after: Seq<char>,
) -> bool {
    &&& post.pending_changes@ == changes
    &&& changes.len() == 0 ==> {
        &&& post.message@ == empty_message
        &&& post == (App {
            pending_changes: post.pending_changes,
            message: post.message,
            mode: AppMode::Explorer,
            ..pre
        })
    }
    &&& changes.len() > 0 ==> {
        &&& post.message@ == count_before + decimal(changes.len()) + count_after
        &&& post == (App {
            pending_changes: post.pending_changes,
            message: post.message,
            mode: AppMode::DryRunPreview,
            show_dry_run_scroll: 0,
            ..pre
        })
    }
}

/// `post` is `pre` with the entry for `old_dir` highlighted: selected and
/// scrolled to five rows above it, or the top when it is not shown.
pub open spec fn reselected(pre: App, post: App, old_dir: Seq<char>) -> bool {
    match path_position(pre.filtered_files@, old_dir) {
        Some(p) => post == (App {
            selected_index: p as usize,
            scroll_offset: if p >= 5 { (p - 5) as usize } else { 0 },
            ..pre
        }),
        None => post == (App { selected_index: 0, scroll_offset: 0, ..pre }),
    }
}

/// `post` is `pre` after entering the selected entry if it is a directory.
pub open spec fn dir_entered(pre: App, post: App, entered: bool) -> bool {
    let sel = pre.selected_index;
    &&& entered == (sel < pre.filtered_files@.len() && pre.filtered_files@[sel as int].is_dir)
    &&& entered ==> post == (App {
        current_dir: pre.filtered_files@[sel as int].path,
        selected_index: 0,
        scroll_offset: 0,
        ..pre
    })
    &&& !entered ==> post == pre
}

/// `post` is `pre` after moving to the parent directory, if there is one;
/// `left` is the directory left.
pub open spec fn parent_entered(pre: App, post: App, left: Option<String>) -> bool {
    &&& left is Some <==> path_parent(pre.current_dir@) is Some
    &&& left matches Some(d) ==> {
        &&& d == pre.current_dir
        &&& post.current_dir@ == path_parent(pre.current_dir@)->0
        &&& post == (App { current_dir: post.current_dir, ..pre })
    }
    &&& left is None ==> post == pre
}

/// `post` is `pre` after starting its utility: rename asks for a prefix;
/// the others are returned, to be scanned for.
pub open spec fn utility_started(pre: App, post: App, scan: Option<UtilityTab>) -> bool {
    if pre.utility_tab == UtilityTab::Rename {
        &&& scan is None
        &&& post.input_buffer@.len() == 0
        &&& post == (App {
            input_purpose: InputPurpose::RenamePrefix,
            input_buffer: post.input_buffer,
            mode: AppMode::FilterInput,
            ..pre
        })
    } else {
        scan == Some(pre.utility_tab) && post == pre
    }
}

/// `post` is `pre` once its staged changes were applied: the changes carried out
/// (`logs`) are kept for undo when there are any, the batch is cleared, and,
/// if the directory could be listed again (`listing`), the files are
/// refreshed and the outcome reported.
pub open spec fn changes_confirmed(
    pre: App,
    post: App,
    logs: Vec<UndoLog>,
    errors: Seq<String>,
    listing: Option<Vec<FileItem>>,
) -> bool {
    let cleared = App {
        undo_stack: post.undo_stack,
        pending_changes: post.pending_changes,
        mode: AppMode::Explorer,
        ..pre
    };
    &&& post.undo_stack@ == if logs@.len() > 0 {
        pre.undo_stack@.push(logs)
    } else {
        pre.undo_stack@
    }
    &&& post.pending_changes@.len() == 0
    &&& post.mode == AppMode::Explorer
    &&& match listing {
        None => post == cleared,
        Some(l) => {
            &&& refreshed_but_message(cleared, post, l@)
            &&& errors.len() == 0 ==> post.message@ == "Successfully processed all changes."@
            &&& errors.len() > 0 ==> post.message@ == "Processed changes, but "@ + decimal(
                errors.len(),
            ) + " error(s) (e.g., "@ + errors[0]@ + ")."@
        },
    }
}

/// `post` is `pre` with its staged changes dropped.
pub open spec fn cancelled(pre: App, post: App) -> bool {
    &&& post.pending_changes@.len() == 0
    &&& post.message@ == "Operation cancelled safely."@
    &&& post == (App {
        pending_changes: post.pending_changes,
        mode: AppMode::Explorer,
        message: post.message,
        ..pre
    })
}

/// `post` is `pre` with the last batch taken off the undo stack, or with a
/// message when the stack is empty.
pub open spec fn undo_taken(pre: App, post: App, logs: Option<Vec<UndoLog>>) -> bool {
    if pre.undo_stack@.len() == 0 {
        &&& logs is None
        &&& post.message@ == "Undo structural stack is empty!"@
        &&& post == (App { message: post.message, ..pre })
    } else {
        &&& logs == Some(pre.undo_stack@.last())
        &&& post.undo_stack@ == pre.undo_stack@.drop_last()
        &&& post == (App { undo_stack: post.undo_stack, ..pre })
    }
}

/// `post` is `pre` with the sort-target categories listed in ascending order
/// and the first one selected.
pub open spec fn settings_loaded(pre: App, post: App) -> bool {
    &&& crate::engine::names_ascending(post.settings_categories@)
    &&& forall|k: Seq<char>|
        pre.config.sort_targets@.contains_key(k) <==> crate::engine::has_name(
            post.settings_categories@,
            k,
        )
    &&& post == (App {
        settings_categories: post.settings_categories,
        settings_selected: 0,
        ..pre
    })
}

/// `post` is `pre` once the configuration has been written.
pub open spec fn settings_saved(pre: App, post: App) -> bool {
    &&& post.message@ == "Configuration successfully flushed to disk storage JSON."@
    &&& post == (App { message: post.message, mode: AppMode::Explorer, ..pre })
}

/// The staged changes the dry-run preview lists from position `scroll` on.
pub open spec fn preview_rest(pending: Seq<PendingChange>, scroll: int) -> Seq<PendingChange> {
    if scroll < pending.len() {
        pending.skip(scroll)
    } else {
        Seq::empty()
    }
}

/// The lines of the dry-run preview: the descriptions of the changes from
/// position `scroll` on, at most seventeen, then a truncation line when more
/// remain.
pub open spec fn preview_lines(pending: Seq<PendingChange>, scroll: int) -> Seq<Seq<char>> {
    let rest = preview_rest(pending, scroll);
    let shown: nat = if rest.len() > 17 { 17 } else { rest.len() };
    let lines = Seq::new(shown, |i: int| "  ● "@ + rest[i].description@);
    if rest.len() > 17 {
        lines.push(" ... truncated logs overflow parameters ..."@)
    } else {
        lines
    }
}

/// The lines the dry-run preview shows for `pending`, scrolled to `scroll`.
pub fn dry_run_lines(pending: &Vec<PendingChange>, scroll: usize) -> (lines: Vec<String>)
    ensures
        crate::engine::strings_view(lines@) == preview_lines(pending@, scroll as int),
{
    let mut lines: Vec<String> = Vec::new();
    if scroll >= pending.len() {
        assert(crate::engine::strings_view(lines@) =~= preview_lines(pending@, scroll as int));
        return lines;
    }
    let ghost rest = preview_rest(pending@, scroll as int);
    let plen = pending.len();
    let avail = plen - scroll;
    let mut k: usize = 0;
    while k < avail && k < 17
        invariant
            plen == pending@.len(),
            scroll < pending@.len(),
            avail == pending@.len() - scroll,
            rest == pending@.skip(scroll as int),
            k <= avail,
            k <= 17,
            crate::engine::strings_view(lines@) =~= Seq::new(
                k as nat,
                |i: int| "  ● "@ + rest[i].description@,
            ),
        decreases avail - k,
    {
        assert(scroll + k < pending@.len());
        let j: usize = scroll + k;
        let mut line = owned("  ● ");
        push_text(&mut line, pending[j].description.as_str());
        assert(pending@[j as int] == rest[k as int]);
        let ghost before = lines@;
        lines.push(line);
        assert(crate::engine::strings_view(lines@) =~= crate::engine::strings_view(before).push(
            line@,
        ));
        k += 1;
    }
    if avail > 17 {
        let ghost before = lines@;
        lines.push(owned(" ... truncated logs overflow parameters ..."));
        assert(crate::engine::strings_view(lines@) =~= crate::engine::strings_view(before).push(
            " ... truncated logs overflow parameters ..."@,
        ));
    }
    lines
}

fn copy_items(v: &Vec<FileItem>) -> (r: Vec<FileItem>)
    ensures
        r@ == v@,
{
    let mut r: Vec<FileItem> = Vec::new();
    let n = v.len();
    let mut i: usize = 0;
    while i < n
        invariant
            n == v@.len(),
            i <= n,
            r@ == v@.take(i as int),
        decreases n - i,
    {
        r.push(v[i].clone());
        assert(v@.take(i + 1) =~= v@.take(i as int).push(v@[i as int]));
        i += 1;
    }
    assert(v@.take(n as int) =~= v@);
    r
}

impl App {
    /// The configuration is well formed and the settings cursor is on a category.
    pub open spec fn wf(&self) -> bool {
        &&& self.config.wf()
        &&& self.settings_categories@.len() == 0 || self.settings_selected
            < self.settings_categories@.len()
        &&& crate::engine::names_distinct(self.settings_categories@)
    }

    /// The state at start-up in `current_dir` with `config`, before the first
    /// listing is read.
    pub fn new(current_dir: String, config: AppConfig) -> (app: App)
        requires
            config.wf(),
        ensures
            app.wf(),
            app.current_dir == current_dir,
            app.config == config,
            app.files@.len() == 0,
            app.filtered_files@.len() == 0,
            app.selected_index == 0,
            app.scroll_offset == 0,
            app.mode == AppMode::Explorer,
            app.undo_stack@.len() == 0,
            app.search_query@.len() == 0,
            app.pending_changes@.len() == 0,
            app.utility_tab == UtilityTab::Sort,
            app.rename_prefix@.len() == 0,
            app.rename_case == RenameCase::Lowercase,
            app.message@ == "Welcome to TUI File Manager!"@,
            app.right_panel_view == RightPanelView::FileMetadata,
            app.large_files@.len() == 0,
            app.duplicates@.len() == 0,
            app.input_purpose == InputPurpose::Filter,
            app.input_buffer@.len() == 0,
            app.settings_categories@.len() == 0,
            app.settings_selected == 0,
            app.show_dry_run_scroll == 0,
            app.regex_valid,
    {
        App {
            current_dir,
            files: Vec::new(),
            filtered_files: Vec::new(),
            selected_index: 0,
            scroll_offset: 0,
            mode: AppMode::Explorer,
            undo_stack: Vec::new(),
            config,
            search_query: String::new(),
            pending_changes: Vec::new(),
            utility_tab: UtilityTab::Sort,
            rename_prefix: String::new(),
            rename_case: RenameCase::Lowercase,
            message: owned("Welcome to TUI File Manager!"),
            right_panel_view: RightPanelView::FileMetadata,
            large_files: Vec::new(),
            duplicates: Vec::new(),
            input_purpose: InputPurpose::Filter,
            input_buffer: String::new(),
            settings_categories: Vec::new(),
            settings_selected: 0,
            show_dry_run_scroll: 0,
            regex_valid: true,
        }
    }

    /// Re-filters the files for the search query; an invalid regex falls back
    /// to plain-text matching and says so.
    pub fn apply_filter(&mut self)
        ensures
            filtered_from(*old(self), *final(self)),
    {
        if self.search_query.as_str().is_empty() {
            self.filtered_files = copy_items(&self.files);
            self.regex_valid = true;
        } else {
            let (filtered, used_fallback) = filter_files(self.files.as_slice(), self.search_query.as_str());
            self.filtered_files = filtered;
            self.regex_valid = !used_fallback;
            if !self.regex_valid {
                self.message = owned("(Plain text match — invalid regex)");
            }
        }
        if self.selected_index >= self.filtered_files.len() {
            if self.filtered_files.len() == 0 {
                self.selected_index = 0;
            } else {
                self.selected_index = self.filtered_files.len() - 1;
            }
        }
    }

    /// Takes `listing`, the entries just read from the current directory:
    /// orders them, re-filters, and resets the selection if nothing is shown.
    pub fn refresh_files(&mut self, listing: Vec<FileItem>)
        ensures
            refreshed_from(*old(self), *final(self), listing@),
    {
        self.files = order_listing(listing);
        self.apply_filter();
        if self.selected_index >= self.filtered_files.len() {
            self.selected_index = 0;
            self.scroll_offset = 0;
        }
    }

    /// Scrolls so that the selection is within a window of `visible_height` rows.
    pub fn adjust_viewport(&mut self, visible_height: usize)
        ensures
            *final(self) == viewport_adjusted(*old(self), visible_height),
    {
        if self.filtered_files.len() == 0 {
            self.scroll_offset = 0;
            return;
        }
        if self.selected_index >= self.filtered_files.len() {
            self.selected_index = self.filtered_files.len() - 1;
        }
        if self.selected_index < self.scroll_offset {
            self.scroll_offset = self.selected_index;
        } else if self.selected_index - self.scroll_offset >= visible_height {
            self.scroll_offset = self.selected_index - visible_height + 1;
        }
    }

    /// Moves the selection down one entry, wrapping to the top.
    pub fn move_selection_down(&mut self)
        ensures
            *final(self) == moved_down(*old(self)),
    {
        if self.filtered_files.len() > 0 {
            if self.selected_index < self.filtered_files.len() - 1 {
                self.selected_index += 1;
            } else {
                self.selected_index = 0;
                self.scroll_offset = 0;
            }
        }
    }

    /// Moves the selection up one entry, wrapping to the bottom.
    pub fn move_selection_up(&mut self)
        ensures
            *final(self) == moved_up(*old(self)),
    {
        if self.filtered_files.len() > 0 {
            if self.selected_index > 0 {
                self.selected_index -= 1;
            } else {
                self.selected_index = self.filtered_files.len() - 1;
            }
        }
    }

    /// Enters the selected entry if it is a directory: the current directory
    /// becomes its path and the selection returns to the top.  Returns
    /// whether it did, in which case the new directory is to be listed.
    pub fn go_into_dir(&mut self) -> (entered: bool)
        ensures
            dir_entered(*old(self), *final(self), entered),
    {
        if self.selected_index < self.filtered_files.len() {
            if self.filtered_files[self.selected_index].is_dir {
                self.current_dir = self.filtered_files[self.selected_index].path.clone();
                self.selected_index = 0;
                self.scroll_offset = 0;
                return true;
            }
        }
        false
    }

    /// Moves to the parent directory, if there is one.  Returns the directory
    /// left, which is to be highlighted once the parent is listed.
    pub fn go_to_parent(&mut self) -> (left: Option<String>)
        ensures
            parent_entered(*old(self), *final(self), left),
    {
        match parent_of(self.current_dir.as_str()) {
            Some(p) => {
                let old_dir = self.current_dir.clone();
                self.current_dir = p;
                Some(old_dir)
            },
            None => None,
        }
    }

    /// Highlights the entry for `old_dir` after moving to its parent: the
    /// selection goes to it and the view scrolls to five rows above it; if it
    /// is not shown, to the top.
    pub fn reselect(&mut self, old_dir: &str)
        ensures
            reselected(*old(self), *final(self), old_dir@),
    {
        let n = self.filtered_files.len();
        let mut i: usize = 0;
        assert(self.filtered_files@.skip(0) =~= self.filtered_files@);
        while i < n
            invariant
                n == self.filtered_files@.len(),
                i <= n,
                *self == *old(self),
                path_position(self.filtered_files@, old_dir@) == shifted(
                    path_position(self.filtered_files@.skip(i as int), old_dir@),
                    i as int,
                ),
            decreases n - i,
        {
            proof {
                let rest = self.filtered_files@.skip(i as int);
                assert(rest.drop_first() =~= self.filtered_files@.skip(i + 1));
                assert(rest[0] == self.filtered_files@[i as int]);
            }
            if same_path(self.filtered_files[i].path.as_str(), old_dir) {
                self.selected_index = i;
                self.scroll_offset = if i >= 5 { i - 5 } else { 0 };
                return;
            }
            i += 1;
        }
        assert(self.filtered_files@.skip(n as int) =~= Seq::<FileItem>::empty());
        self.selected_index = 0;
        self.scroll_offset = 0;
    }

    /// Starts the chosen utility.  Rename asks for a prefix; the others need
    /// a scan of the current directory, and the tool is returned.
    pub fn run_utility_logic(&mut self) -> (scan: Option<UtilityTab>)
        ensures
            utility_started(*old(self), *final(self), scan),
    {
        match self.utility_tab {
            UtilityTab::Rename => {
                self.input_purpose = InputPurpose::RenamePrefix;
                self.input_buffer = String::new();
                self.mode = AppMode::FilterInput;
                None
            },
            UtilityTab::Sort => Some(UtilityTab::Sort),
            UtilityTab::Clean => Some(UtilityTab::Clean),
            UtilityTab::Duplicates => Some(UtilityTab::Duplicates),
            UtilityTab::LargeFiles => Some(UtilityTab::LargeFiles),
        }
    }

    fn stage(&mut self, changes: Vec<PendingChange>, empty_message: &str, count_before: &str, count_after: &str)
        ensures
            staged(*old(self), *final(self), changes@, empty_message@, count_before@, count_after@),
    {
        self.pending_changes = changes;
        if self.pending_changes.len() == 0 {
            self.message = owned(empty_message);
            self.mode = AppMode::Explorer;
        } else {
            self.mode = AppMode::DryRunPreview;
            self.show_dry_run_scroll = 0;
            let mut m = owned(count_before);
            let count = decimal_string(self.pending_changes.len() as u128);
            push_text(&mut m, count.as_str());
            push_text(&mut m, count_after);
            self.message = m;
        }
    }

    /// Stages the moves that sort the current directory's files, from its
    /// `entries` as read.
    pub fn stage_sort_changes(&mut self, entries: &[DirEntry])
        requires
            old(self).wf(),
        ensures
            changes_view(final(self).pending_changes@) == entries@.filter_map(
                |e: DirEntry|
                    crate::engine::sort_change(
                        old(self).current_dir@,
                        e,
                        old(self).config.extension_map@,
                        old(self).config.sort_targets@,
                    ),
            ),
            staged(
                *old(self),
                *final(self),
                final(self).pending_changes@,
                "All items are already sorted cleanly."@,
                "Staged "@,
                " organization operations. Confirm? (y/n)"@,
            ),
    {
        let changes = generate_sort_changes(self.current_dir.as_str(), entries, &self.config);
        self.stage(
            changes,
            "All items are already sorted cleanly.",
            "Staged ",
            " organization operations. Confirm? (y/n)",
        );
    }

    /// Stages the removal of the empty directories found under the current one.
    pub fn stage_cleanup_changes(&mut self, empty_dirs: &[String])
        ensures
            changes_view(final(self).pending_changes@) == crate::engine::cleanup_plan(
                old(self).current_dir@,
                empty_dirs@,
            ),
            staged(
                *old(self),
                *final(self),
                final(self).pending_changes@,
                "No empty folders or broken links detected."@,
                "Staged "@,
                " deletions. Confirm structural removal? (y/n)"@,
            ),
    {
        let changes = generate_cleanup_changes(self.current_dir.as_str(), empty_dirs, &self.config);
        self.stage(
            changes,
            "No empty folders or broken links detected.",
            "Staged ",
            " deletions. Confirm structural removal? (y/n)",
        );
    }

    /// Shows the groups of duplicate files among `hashed` (path and content
    /// hash of each file found, in order).
    pub fn show_duplicates(&mut self, hashed: &Vec<(String, String)>)
        ensures
            nested_view(final(self).duplicates@) == duplicate_groups(hashed@),
            final(self).message@ == "Scanning finished: "@ + decimal(
                final(self).duplicates@.len(),
            ) + " duplicate signature groups found."@,
            *final(self) == (App {
                duplicates: final(self).duplicates,
                right_panel_view: RightPanelView::Duplicates,
                message: final(self).message,
                mode: AppMode::Explorer,
                ..*old(self)
            }),
    {
        self.duplicates = find_duplicate_files(hashed);
        self.right_panel_view = RightPanelView::Duplicates;
        let mut m = owned("Scanning finished: ");
        let count = decimal_string(self.duplicates.len() as u128);
        push_text(&mut m, count.as_str());
        push_text(&mut m, " duplicate signature groups found.");
        self.message = m;
        self.mode = AppMode::Explorer;
    }

    /// Shows the twenty largest of `files` (path and size of each file found).
    pub fn show_large_files(&mut self, files: Vec<(String, u64)>)
        ensures
            final(self).large_files@ == stable_sort(files@, larger_first()).take(
                if 20 < files@.len() { 20 } else { files@.len() as int },
            ),
            final(self).message@ == "Top 20 large files found. Total: "@ + decimal(
                total_size(final(self).large_files@),
            ) + " bytes."@,
            *final(self) == (App {
                large_files: final(self).large_files,
                right_panel_view: RightPanelView::LargeFiles,
                message: final(self).message,
                mode: AppMode::Explorer,
                ..*old(self)
            }),
    {
        self.large_files = find_large_files(files, 20);
        self.right_panel_view = RightPanelView::LargeFiles;
        let mut total: u128 = 0;
        let n = self.large_files.len();
        let mut i: usize = 0;
        assert(self.large_files@.take(0) =~= Seq::<(String, u64)>::empty());
        while i < n
            invariant
                n == self.large_files@.len() <= 20,
                i <= n,
                total == total_size(self.large_files@.take(i as int)),
                total <= i * 0xffff_ffff_ffff_ffff,
            decreases n - i,
        {
            assert(self.large_files@.take(i + 1).drop_last() =~= self.large_files@.take(i as int));
            total = total + self.large_files[i].1 as u128;
            i += 1;
        }
        assert(self.large_files@.take(n as int) =~= self.large_files@);
        let mut m = owned("Top 20 large files found. Total: ");
        let t = decimal_string(total);
        push_text(&mut m, t.as_str());
        push_text(&mut m, " bytes.");
        self.message = m;
        self.mode = AppMode::Explorer;
    }

    /// Stages the renames of the current directory's files, from its
    /// `entries` as read, with the chosen prefix and case.  Returns `false`,
    /// changing nothing, where a file's rename cannot be described.
    pub fn execute_rename(&mut self, entries: &[DirEntry]) -> (planned: bool)
        ensures
            planned == rename_plan(entries@, old(self).rename_prefix@, old(self).rename_case) is Some,
            !planned ==> *final(self) == *old(self),
            planned ==> rename_plan(entries@, old(self).rename_prefix@, old(self).rename_case) == Some(
                changes_view(final(self).pending_changes@),
            ) && staged(
                *old(self),
                *final(self),
                final(self).pending_changes@,
                "No files to rename."@,
                ""@,
                " files to rename. Confirm? (y/n)"@,
            ),
    {
        match batch_rename_dry_run(entries, self.rename_prefix.as_str(), self.rename_case) {
            Some(changes) => {
                self.stage(changes, "No files to rename.", "", " files to rename. Confirm? (y/n)");
                true
            },
            None => false,
        }
    }

    /// Records the outcome of applying the staged changes: the changes carried out
    /// (`logs`, kept for undo when there are any) and the errors met; then,
    /// if the directory could be listed again (`listing`), refreshes and
    /// reports.
    pub fn confirm_pending_changes(
        &mut self,
        logs: Vec<UndoLog>,
        errors: Vec<String>,
        listing: Option<Vec<FileItem>>,
    )
        ensures
            changes_confirmed(*old(self), *final(self), logs, errors@, listing),
    {
        if logs.len() > 0 {
            self.undo_stack.push(logs);
        }
        self.pending_changes = Vec::new();
        self.mode = AppMode::Explorer;
        match listing {
            None => {},
            Some(l) => {
                let ghost cleared = *self;
                self.refresh_files(l);
                let ghost refreshed = *self;
                if errors.len() == 0 {
                    self.message = owned("Successfully processed all changes.");
                } else {
                    let mut m = owned("Processed changes, but ");
                    let count = decimal_string(errors.len() as u128);
                    push_text(&mut m, count.as_str());
                    push_text(&mut m, " error(s) (e.g., ");
                    push_text(&mut m, errors[0].as_str());
                    push_text(&mut m, ").");
                    self.message = m;
                }
                proof {
                    assert(App { message: refreshed.message, ..*self } == refreshed);
                }
            },
        }
    }

    /// Drops the staged changes without touching the disk.
    pub fn cancel_pending_changes(&mut self)
        ensures
            cancelled(*old(self), *final(self)),
    {
        self.pending_changes = Vec::new();
        self.mode = AppMode::Explorer;
        self.message = owned("Operation cancelled safely.");
    }

    /// Takes the last applied batch off the undo stack, to be reversed; with
    /// an empty stack, says so.
    pub fn undo_last(&mut self) -> (logs: Option<Vec<UndoLog>>)
        ensures
            undo_taken(*old(self), *final(self), logs),
    {
        if self.undo_stack.len() == 0 {
            self.message = owned("Undo structural stack is empty!");
            None
        } else {
            self.undo_stack.pop()
        }
    }

    /// Lists the categories of the sort targets, in order, and selects the first.
    pub fn load_settings(&mut self)
        requires
            old(self).wf(),
        ensures
            final(self).wf(),
            settings_loaded(*old(self), *final(self)),
    {
        let keys = self.config.sort_targets.keys();
        self.settings_categories = crate::engine::sort_names(keys);
        self.settings_selected = 0;
        proof {
            crate::engine::lemma_ascending_distinct(self.settings_categories@);
            assert forall|k: Seq<char>|
                self.config.sort_targets@.contains_key(k) <==> crate::engine::has_name(
                    self.settings_categories@,
                    k,
                ) by {
                if self.config.sort_targets@.contains_key(k) {
                    assert(crate::engine::has_name(keys@, k));
                }
                if crate::engine::has_name(keys@, k) {
                    let a = choose|a: int| 0 <= a < keys@.len() && #[trigger] keys@[a]@ == k;
                }
            }
        }
    }

    /// Records that the configuration was written: back to the explorer.
    pub fn save_settings(&mut self)
        ensures
            settings_saved(*old(self), *final(self)),
    {
        self.message = owned("Configuration successfully flushed to disk storage JSON.");
        self.mode = AppMode::Explorer;
    }
}

} // verus!
