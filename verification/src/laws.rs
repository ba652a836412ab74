//! Properties of the file manager that span its operations.

use vstd::prelude::*;
use crate::app::{
    path_position, refreshed_from, reselected,
    cancelled, changes_confirmed, moved_down, moved_up, undo_taken, viewport_adjusted,
    visible_files, App,
};
use crate::engine::{
    cleanup_change, cleanup_plan, duplicate_groups, larger_first, listing_order, name_passes,
    paths_with_hash, shared_groups,
};
use crate::config::without_value;
use crate::engine::has_name;
use crate::events::{
    refresh_finished, AfterRefresh,
    add_extensions, cleaned_extension, key_step, lowercase_kept, names_view, next_case, Command,
    Key,
};
use crate::text::{
    ascii_lower_text, is_white_space, joined, lemma_no_dots, lemma_split_of_joined,
    lemma_trim_plain, lowercase, split_pieces, trim, Separator,
};
use crate::models::{AppMode, ChangeKind, ChangeView, FileItem, RenameCase, UndoLog};
use crate::order::{
    is_ordered, lemma_stable_sort_ordered, lemma_stable_sort_permutes, stable_sort,
};
use crate::paths::{path_eq, path_parent};

verus! {

/// A directory listing is ordered (directories first, then by name) and
/// holds exactly the entries read.
pub proof fn lemma_listing_sorted(files: Seq<FileItem>)
    ensures
        is_ordered(stable_sort(files, listing_order()), listing_order()),
        stable_sort(files, listing_order()).to_multiset() == files.to_multiset(),
{
    crate::engine::lemma_listing_order_strict();
    lemma_stable_sort_ordered(files, listing_order());
    lemma_stable_sort_permutes(files, listing_order());
}

/// The large-file ranking lists no file before a larger one, and the
/// ranking it is cut from holds exactly the files found.
pub proof fn lemma_large_files_ranked(files: Seq<(String, u64)>, k: int)
    requires
        0 <= k <= files.len(),
    ensures
        forall|i: int, j: int|
            0 <= i < j < k ==> #[trigger] stable_sort(files, larger_first()).take(k)[i].1
                >= #[trigger] stable_sort(files, larger_first()).take(k)[j].1,
        stable_sort(files, larger_first()).to_multiset() == files.to_multiset(),
{
    crate::engine::lemma_larger_first_strict();
    lemma_stable_sort_ordered(files, larger_first());
    lemma_stable_sort_permutes(files, larger_first());
    let s = stable_sort(files, larger_first());
    vstd::seq_lib::to_multiset_len(s);
    vstd::seq_lib::to_multiset_len(files);
    assert forall|i: int, j: int| 0 <= i < j < k implies #[trigger] s.take(k)[i].1 >= #[trigger] s.take(
        k,
    )[j].1 by {
        assert(!larger_first()(s[j], s[i]));
    }
}

/// Moving the selection down and then up returns to where it was.
pub proof fn lemma_down_then_up(a: App)
    requires
        a.selected_index < a.filtered_files@.len() <= usize::MAX,
    ensures
        moved_up(moved_down(a)).selected_index == a.selected_index,
{
}

/// Moving the selection up and then down returns to where it was.
pub proof fn lemma_up_then_down(a: App)
    requires
        a.selected_index < a.filtered_files@.len() <= usize::MAX,
    ensures
        moved_down(moved_up(a)).selected_index == a.selected_index,
{
}

/// Moving down as many times as there are entries comes back to the start.
pub proof fn lemma_down_cycles(a: App, n: nat)
    requires
        a.selected_index < a.filtered_files@.len() <= usize::MAX,
        n <= a.filtered_files@.len(),
    ensures
        moved_down_times(a, n).filtered_files == a.filtered_files,
        moved_down_times(a, n).selected_index == (a.selected_index as int + n) % (
        a.filtered_files@.len() as int),
    decreases n,
{
    if n > 0 {
        lemma_down_cycles(a, (n - 1) as nat);
        let len = a.filtered_files@.len() as int;
        let prev = moved_down_times(a, (n - 1) as nat);
        assert(prev.selected_index == (a.selected_index as int + n - 1) % len);
        assert((a.selected_index as int + n) % len == if prev.selected_index + 1 < len {
            prev.selected_index + 1
        } else {
            0
        }) by (nonlinear_arith)
            requires
                prev.selected_index == (a.selected_index as int + n - 1) % len,
                0 <= a.selected_index < len,
                1 <= n <= len,
        ;
    } else {
        assert((a.selected_index as int) % (a.filtered_files@.len() as int) == a.selected_index) by (
        nonlinear_arith)
            requires
                0 <= a.selected_index < a.filtered_files@.len(),
        ;
    }
}

/// The selection moved down `n` times.
pub open spec fn moved_down_times(a: App, n: nat) -> App
    decreases n,
{
    if n == 0 {
        a
    } else {
        moved_down(moved_down_times(a, (n - 1) as nat))
    }
}

/// After adjusting the viewport to a window of `height > 0` rows, the
/// selection is a shown entry inside the window.
pub proof fn lemma_viewport_shows_selection(a: App, height: usize)
    requires
        height > 0,
        a.filtered_files@.len() > 0,
    ensures
        ({
            let b = viewport_adjusted(a, height);
            &&& b.selected_index < b.filtered_files@.len()
            &&& b.scroll_offset <= b.selected_index < b.scroll_offset + height
        }),
{
}

/// Cycling the rename case three times returns to it.
pub proof fn lemma_case_cycle(c: RenameCase)
    ensures
        next_case(next_case(next_case(c))) == c,
        next_case(c) != c,
{
}

/// Every shown file passes the query, every file that passes it is shown,
/// and an empty query shows everything.
pub proof fn lemma_filter_exact(files: Seq<FileItem>, query: Seq<char>)
    ensures
        query.len() == 0 ==> visible_files(files, query) == files,
        query.len() > 0 ==> forall|i: int|
            0 <= i < visible_files(files, query).len() ==> files.contains(
                #[trigger] visible_files(files, query)[i],
            ) && name_passes(query, visible_files(files, query)[i].name@),
        query.len() > 0 ==> forall|i: int|
            0 <= i < files.len() && name_passes(query, #[trigger] files[i].name@)
                ==> visible_files(files, query).contains(files[i]),
{
    let pred = |f: FileItem| name_passes(query, f.name@);
    if query.len() > 0 {
        broadcast use vstd::seq_lib::group_filter_ensures;
        broadcast use vstd::seq::Seq::lemma_filter_contains_rev;
        assert forall|i: int| 0 <= i < visible_files(files, query).len() implies files.contains(
            #[trigger] visible_files(files, query)[i],
        ) && name_passes(query, visible_files(files, query)[i].name@) by {
            let v = files.filter(pred);
            assert(v.contains(v[i]));
            assert(pred(v[i]));
        }
        assert forall|i: int|
            0 <= i < files.len() && name_passes(query, #[trigger] files[i].name@)
                implies visible_files(files, query).contains(files[i]) by {
            assert(pred(files[i]));
        }
    }
}

/// No staged change touches `dir`, and all are directory removals.
pub open spec fn only_removals_outside(plan: Seq<ChangeView>, dir: Seq<char>) -> bool {
    forall|i: int|
        0 <= i < plan.len() ==> !path_eq((#[trigger] plan[i]).src, dir) && plan[i].kind
            == ChangeKind::DeleteDir
}

/// Clean-up never stages the directory being cleaned, and only ever stages
/// directory removals.
pub proof fn lemma_cleanup_spares_current(current_dir: Seq<char>, dirs: Seq<String>)
    ensures
        only_removals_outside(cleanup_plan(current_dir, dirs), current_dir),
    decreases dirs.len(),
{
    let plan = cleanup_plan(current_dir, dirs);
    if dirs.len() > 0 {
        lemma_cleanup_spares_current(current_dir, dirs.drop_last());
        let rest = cleanup_plan(current_dir, dirs.drop_last());
        assert(only_removals_outside(rest, current_dir));
        let d = dirs.last()@;
        assert(plan == match cleanup_change(current_dir, d) {
            Some(c) => rest + seq![c],
            None => rest,
        });
        assert forall|i: int| 0 <= i < plan.len() implies !path_eq((#[trigger] plan[i]).src, current_dir)
            && plan[i].kind == ChangeKind::DeleteDir by {
            if i < rest.len() {
                assert(plan[i] == rest[i]);
                assert(!path_eq(rest[i].src, current_dir) && rest[i].kind == ChangeKind::DeleteDir);
            } else {
                assert(cleanup_change(current_dir, d) is Some);
                assert(plan[i] == cleanup_change(current_dir, d)->0);
                assert(plan[i].src == d);
            }
        }
    } else {
        assert(plan =~= Seq::<ChangeView>::empty());
    }
}

/// Each duplicate group lists two or more files, all with one hash: the
/// paths, in order, of exactly the files with that hash.
pub proof fn lemma_duplicate_groups_share_hash(s: Seq<(String, String)>)
    ensures
        forall|g: int|
            0 <= g < duplicate_groups(s).len() ==> #[trigger] duplicate_groups(s)[g].len() > 1
                && exists|h: Seq<char>| duplicate_groups(s)[g] == paths_with_hash(s, h),
{
    lemma_shared_groups(crate::engine::distinct_hashes(s), s);
}

proof fn lemma_shared_groups(hs: Seq<Seq<char>>, s: Seq<(String, String)>)
    ensures
        forall|g: int|
            0 <= g < shared_groups(hs, s).len() ==> #[trigger] shared_groups(hs, s)[g].len() > 1
                && exists|h: Seq<char>| shared_groups(hs, s)[g] == paths_with_hash(s, h),
    decreases hs.len(),
{
    if hs.len() > 0 {
        lemma_shared_groups(hs.drop_last(), s);
        let rest = shared_groups(hs.drop_last(), s);
        assert forall|g: int| 0 <= g < shared_groups(hs, s).len() implies #[trigger] shared_groups(
            hs,
            s,
        )[g].len() > 1 && exists|h: Seq<char>| shared_groups(hs, s)[g] == paths_with_hash(s, h) by {
            if g < rest.len() {
                assert(shared_groups(hs, s)[g] == rest[g]);
            } else {
                assert(shared_groups(hs, s)[g] == paths_with_hash(s, hs.last()));
            }
        }
    }
}

/// Nothing is written without confirmation: a key asks for the staged
/// changes to be applied exactly when the dry-run preview is open and the
/// key is `y` or `Y`, and asking changes nothing yet; `n`, `N` or Esc there
/// drop the batch and ask for no disk work at all.
pub proof fn lemma_apply_only_on_confirm(pre: App, post: App, key: Key, cmd: Command)
    requires
        key_step(pre, post, key, cmd),
    ensures
        cmd is ApplyChanges <==> (pre.mode == AppMode::DryRunPreview && (key == Key::Char('y')
            || key == Key::Char('Y'))),
        cmd is ApplyChanges ==> post == pre,
        pre.mode == AppMode::DryRunPreview && (key == Key::Char('n') || key == Key::Char('N')
            || key == Key::Esc) ==> cmd is Stay && cancelled(pre, post),
{
}

/// Undo takes back exactly the batch of changes (moves and directory
/// removals) that the last confirmation recorded, and leaves the undo stack
/// as it was before that confirmation.
pub proof fn lemma_confirm_then_undo(
    pre: App,
    mid: App,
    post: App,
    logs: Vec<UndoLog>,
    errors: Seq<String>,
    listing: Option<Vec<FileItem>>,
    taken: Option<Vec<UndoLog>>,
)
    requires
        changes_confirmed(pre, mid, logs, errors, listing),
        logs@.len() > 0,
        undo_taken(mid, post, taken),
    ensures
        taken == Some(logs),
        post.undo_stack@ == pre.undo_stack@,
{
    assert(mid.undo_stack@.drop_last() =~= pre.undo_stack@);
}

/// Typing a character in the input box and then erasing it gives back the
/// state as it was (the buffer as text, everything else exactly).
pub proof fn lemma_type_then_erase(
    a0: App,
    a1: App,
    a2: App,
    c: char,
    cmd1: Command,
    cmd2: Command,
)
    requires
        a0.mode == AppMode::FilterInput,
        key_step(a0, a1, Key::Char(c), cmd1),
        key_step(a1, a2, Key::Backspace, cmd2),
    ensures
        cmd1 is Stay,
        cmd2 is Stay,
        a2.input_buffer@ == a0.input_buffer@,
        a2 == (App { input_buffer: a2.input_buffer, ..a0 }),
{
    assert(a1.input_buffer@.drop_last() =~= a0.input_buffer@);
}

/// In the settings, `j`/Down and `k`/Up move the cursor one category down or
/// up, stopping at the ends, and keep it on a category; nothing else changes.
pub proof fn lemma_settings_cursor_step(pre: App, post: App, key: Key, cmd: Command)
    requires
        pre.wf(),
        pre.settings_categories@.len() <= usize::MAX,
        pre.mode == AppMode::Settings,
        key == Key::Char('j') || key == Key::Down || key == Key::Char('k') || key == Key::Up,
        key_step(pre, post, key, cmd),
    ensures
        cmd is Stay,
        post == (App { settings_selected: post.settings_selected, ..pre }),
        pre.settings_categories@.len() > 0 ==> post.settings_selected
            < post.settings_categories@.len(),
        pre.settings_categories@.len() > 0 && (key == Key::Char('j') || key == Key::Down)
            ==> post.settings_selected == if pre.settings_selected + 1
            < pre.settings_categories@.len() {
            pre.settings_selected + 1
        } else {
            pre.settings_categories@.len() - 1
        },
        (key == Key::Char('k') || key == Key::Up) ==> post.settings_selected == if pre.settings_selected
            > 0 {
            pre.settings_selected - 1
        } else {
            0
        },
{
    if pre.settings_categories@.len() > 0 {
        assert(pre.settings_selected < pre.settings_categories@.len());
    }
}

/// An extension as the settings keep it: not empty, ASCII without uppercase
/// letters, and without dots, commas or white space.
pub open spec fn plain_extension(e: Seq<char>) -> bool {
    &&& e.len() > 0
    &&& ascii_lower_text(e)
    &&& forall|i: int|
        0 <= i < e.len() ==> #[trigger] e[i] != '.' && e[i] != ',' && !is_white_space(e[i])
}

proof fn lemma_add_clean_extensions(
    m0: Map<Seq<char>, Seq<char>>,
    pieces: Seq<Seq<char>>,
    cat: Seq<char>,
    vs: Seq<Seq<char>>,
)
    requires
        pieces.len() == vs.len(),
        forall|i: int|
            0 <= i < pieces.len() ==> cleaned_extension(#[trigger] pieces[i]) == vs[i]
                && vs[i].len() > 0,
    ensures
        forall|k: Seq<char>|
            #[trigger] add_extensions(m0, pieces, cat).contains_key(k) <==> (m0.contains_key(k)
                || vs.contains(k)),
        forall|k: Seq<char>| vs.contains(k) ==> #[trigger] add_extensions(m0, pieces, cat)[k] == cat,
        forall|k: Seq<char>|
            !vs.contains(k) && m0.contains_key(k) ==> #[trigger] add_extensions(m0, pieces, cat)[k]
                == m0[k],
    decreases pieces.len(),
{
    if pieces.len() > 0 {
        let pd = pieces.drop_last();
        let vd = vs.drop_last();
        assert forall|i: int| 0 <= i < pd.len() implies cleaned_extension(#[trigger] pd[i]) == vd[i]
            && vd[i].len() > 0 by {
            assert(pd[i] == pieces[i] && vd[i] == vs[i]);
        }
        lemma_add_clean_extensions(m0, pd, cat, vd);
        assert(cleaned_extension(pieces.last()) == vs.last());
        let before = add_extensions(m0, pd, cat);
        assert(add_extensions(m0, pieces, cat) == before.insert(vs.last(), cat));
        assert forall|k: Seq<char>| vs.contains(k) <==> (vd.contains(k) || k == vs.last()) by {
            if vs.contains(k) {
                let t = choose|t: int| 0 <= t < vs.len() && vs[t] == k;
                if t < vd.len() {
                    assert(vd[t] == k);
                }
            }
            if vd.contains(k) {
                let t = choose|t: int| 0 <= t < vd.len() && vd[t] == k;
                assert(vs[t] == k);
            }
            if k == vs.last() {
                assert(vs[vs.len() - 1] == k);
            }
        }
    } else {
        assert(add_extensions(m0, pieces, cat) == m0);
        assert forall|k: Seq<char>| !vs.contains(k) by {}
    }
}

/// Opening a category's extension editor and confirming it unchanged keeps
/// the extension map as it was, when the category's extensions are plain
/// (lowercase ASCII without dots, commas or white space, as the editor
/// itself writes them); the sort targets and categories are kept too.
pub proof fn lemma_extension_editor_round_trip(
    a0: App,
    a1: App,
    a2: App,
    cmd1: Command,
    cmd2: Command,
)
    requires
        a0.wf(),
        a0.mode == AppMode::Settings,
        a0.settings_selected < a0.settings_categories@.len(),
        forall|k: Seq<char>|
            #[trigger] a0.config.extension_map@.contains_key(k) && a0.config.extension_map@[k]
                == a0.settings_categories@[a0.settings_selected as int]@ ==> plain_extension(k),
        key_step(a0, a1, Key::Char('x'), cmd1),
        key_step(a1, a2, Key::Enter, cmd2),
    ensures
        a2.config.extension_map@ == a0.config.extension_map@,
        a2.config.sort_targets == a0.config.sort_targets,
        a2.settings_categories == a0.settings_categories,
        a2.mode == AppMode::Settings,
{
    let m = a0.config.extension_map@;
    let cat = a0.settings_categories@[a0.settings_selected as int]@;
    let exts = choose|exts: Seq<String>|
        {
            &&& crate::engine::names_ascending(exts)
            &&& forall|k: Seq<char>|
                has_name(exts, k) <==> (m.contains_key(k) && m[k] == cat)
            &&& a1.input_buffer@ == joined(names_view(exts), ", "@)
        };
    let v = names_view(exts);
    let pieces = split_pieces(a1.input_buffer@, Separator::Comma);
    let m0 = without_value(m, cat);
    assert(a2.config.extension_map@ == add_extensions(m0, pieces, cat));
    assert(lowercase_kept(pieces));
    assert forall|i: int| 0 <= i < v.len() implies plain_extension(#[trigger] v[i]) by {
        assert(v[i] == exts[i]@);
        assert(has_name(exts, v[i]));
    }
    if v.len() == 0 {
        assert(joined(v, ", "@) == Seq::<char>::empty());
        assert(pieces == seq![Seq::<char>::empty()]);
        let e = Seq::<char>::empty();
        assert(trim(e) == e);
        assert(ascii_lower_text(trim(pieces[0])));
        assert(lowercase(e) == e);
        assert(cleaned_extension(e) == e);
        assert(pieces.drop_last() =~= Seq::<Seq<char>>::empty());
        assert(add_extensions(m0, pieces.drop_last(), cat) == m0);
        assert(add_extensions(m0, pieces, cat) == m0);
        assert forall|k: Seq<char>| m.contains_key(k) implies m[k] != cat by {
            if m[k] == cat {
                assert(has_name(exts, k));
                let t = choose|t: int| 0 <= t < exts.len() && #[trigger] exts[t]@ == k;
                assert(v[t] == exts[t]@);
            }
        }
        assert(m0 =~= m);
    } else {
        assert forall|i: int, j: int| 0 <= i < v.len() && 0 <= j < v[i].len() implies #[trigger] v[i][j]
            != ',' by {
            assert(plain_extension(v[i]));
        }
        lemma_split_of_joined(v);
        assert forall|i: int| 0 <= i < pieces.len() implies cleaned_extension(#[trigger] pieces[i])
            == v[i] && v[i].len() > 0 by {
            let e = v[i];
            assert(plain_extension(e));
            assert(!is_white_space(e[0]) && !is_white_space(e[e.len() - 1]));
            lemma_trim_plain(e);
            assert(trim(pieces[i]) == e);
            assert(ascii_lower_text(trim(pieces[i])));
            assert(lowercase(e) == e);
            lemma_no_dots(e);
        }
        lemma_add_clean_extensions(m0, pieces, cat, v);
        let r = add_extensions(m0, pieces, cat);
        assert forall|k: Seq<char>| #[trigger] r.contains_key(k) == m.contains_key(k) && (
        r.contains_key(k) ==> r[k] == m[k]) by {
            if v.contains(k) {
                let t = choose|t: int| 0 <= t < v.len() && v[t] == k;
                assert(v[t] == exts[t]@);
                assert(has_name(exts, k));
            }
            if m.contains_key(k) && m[k] == cat {
                assert(has_name(exts, k));
                let t = choose|t: int| 0 <= t < exts.len() && #[trigger] exts[t]@ == k;
                assert(v[t] == exts[t]@);
                assert(v.contains(k));
            }
        }
        assert(r =~= m);
    }
}

/// Entering the selected directory and then leaving it again, with the
/// parent listed as it was before, gives back the same files, the same
/// shown list and the same selection; the current directory becomes the
/// entered one's parent, which is the directory started from when (as for
/// every entry listed from it) the entry's parent is that directory.  The
/// entry must be the first shown under its path.
pub proof fn lemma_enter_then_leave(
    a0: App,
    a1: App,
    a2: App,
    a3: App,
    a4: App,
    listing_in: Vec<FileItem>,
    listing_back: Vec<FileItem>,
    cmd1: Command,
    cmd3: Command,
)
    requires
        a0.mode == AppMode::Explorer,
        a0.files@ == stable_sort(listing_back@, listing_order()),
        a0.filtered_files@ == visible_files(a0.files@, a0.search_query@),
        a0.selected_index < a0.filtered_files@.len(),
        a0.filtered_files@[a0.selected_index as int].is_dir,
        path_position(
            a0.filtered_files@,
            a0.filtered_files@[a0.selected_index as int].path@,
        ) == Some(a0.selected_index as int),
        path_parent(a0.filtered_files@[a0.selected_index as int].path@) is Some,
        key_step(a0, a1, Key::Enter, cmd1),
        refresh_finished(a1, a2, Some(listing_in), AfterRefresh::Nothing),
        key_step(a2, a3, Key::Left, cmd3),
        refresh_finished(
            a3,
            a4,
            Some(listing_back),
            AfterRefresh::Reselect(a0.filtered_files@[a0.selected_index as int].path),
        ),
    ensures
        cmd1 == Command::Refresh(AfterRefresh::Nothing),
        cmd3 == Command::Refresh(
            AfterRefresh::Reselect(a0.filtered_files@[a0.selected_index as int].path),
        ),
        a4.current_dir@ == path_parent(a0.filtered_files@[a0.selected_index as int].path@)->0,
        a4.files@ == a0.files@,
        a4.filtered_files@ == a0.filtered_files@,
        a4.selected_index == a0.selected_index,
        a4.search_query == a0.search_query,
        a4.mode == AppMode::Explorer,
{
    let e = a0.filtered_files@[a0.selected_index as int];
    assert(a1.current_dir == e.path);
    assert(a2.current_dir == a1.current_dir && a2.search_query == a0.search_query);
    assert(a2.mode == AppMode::Explorer);
    assert(a3.search_query == a0.search_query);
    let mid = choose|mid: App| refreshed_from(a3, mid, listing_back@) && reselected(mid, a4, e.path@);
    assert(mid.files@ == a0.files@);
    assert(mid.filtered_files@ == a0.filtered_files@);
}

} // verus!
