//! What the planners compute, stated over their inputs: the order of a
//! listing, the changes staged for sorting, renaming and cleaning up, and
//! the groups of duplicates.

use vstd::prelude::*;
use crate::engine::{name_passes, rename_plan, distinct_hashes, duplicate_groups, paths_with_hash, shared_groups, cleanup_plan, listing_order, rename_change, sort_change, camel_case};
use crate::models::{ChangeKind, ChangeView, DirEntry, FileItem, RenameCase};
use crate::paths::{
    path_extension, path_file_name, path_file_stem, path_is_relative, path_join,
    path_with_file_name,
};
use crate::text::{contains_text, lowercase, uppercase};
use crate::pattern::{regex_compiles, regex_is_match};
use crate::order::{lemma_stable_sort_ordered, lemma_stable_sort_permutes, stable_sort};
use crate::paths::path_eq;
use crate::text::text_lt;

verus! {

/// A listing shows every directory before every file, and within each group
/// no name comes after a later one: names ascend as whole names, in the
/// order `str` compares them.  It holds exactly the entries read.
pub proof fn lemma_listing_by_whole_name(files: Seq<FileItem>)
    ensures
        ({
            let r = stable_sort(files, listing_order());
            &&& forall|i: int, j: int|
                0 <= i < j < r.len() ==> !(!(#[trigger] r[i]).is_dir && (#[trigger] r[j]).is_dir)
            &&& forall|i: int, j: int|
                0 <= i < j < r.len() && (#[trigger] r[i]).is_dir == (#[trigger] r[j]).is_dir
                    ==> !text_lt(r[j].name@, r[i].name@)
            &&& r.to_multiset() == files.to_multiset()
        }),
{
    crate::engine::lemma_listing_order_strict();
    lemma_stable_sort_ordered(files, listing_order());
    lemma_stable_sort_permutes(files, listing_order());
    let r = stable_sort(files, listing_order());
    assert forall|i: int, j: int| 0 <= i < j < r.len() implies !(!(#[trigger] r[i]).is_dir
        && (#[trigger] r[j]).is_dir) by {
        assert(!listing_order()(r[j], r[i]));
    }
    assert forall|i: int, j: int|
        0 <= i < j < r.len() && (#[trigger] r[i]).is_dir == (#[trigger] r[j]).is_dir implies !text_lt(
        r[j].name@,
        r[i].name@,
    ) by {
        assert(!listing_order()(r[j], r[i]));
    }
}

/// The removal staged for an empty directory `d`.
pub open spec fn removal_of(d: String) -> ChangeView {
    ChangeView {
        src: d@,
        dst: Seq::empty(),
        description: "Delete empty target directory layout node: "@ + d@,
        kind: ChangeKind::DeleteDir,
    }
}

/// Clean-up stages the removal of every empty directory found, in the order
/// found, except those that are the current directory, and nothing else.
pub proof fn lemma_cleanup_removes_every_other_dir(current_dir: Seq<char>, dirs: Seq<String>)
    ensures
        cleanup_plan(current_dir, dirs) == dirs.filter(|d: String| !path_eq(d@, current_dir)).map_values(
            |d: String| removal_of(d),
        ),
    decreases dirs.len(),
{
    let pred = |d: String| !path_eq(d@, current_dir);
    reveal(Seq::filter);
    if dirs.len() > 0 {
        lemma_cleanup_removes_every_other_dir(current_dir, dirs.drop_last());
        let before = dirs.drop_last().filter(pred);
        if pred(dirs.last()) {
            assert(dirs.filter(pred) == before.push(dirs.last()));
            assert(before.push(dirs.last()).map_values(|d: String| removal_of(d)) =~= before.map_values(
                |d: String| removal_of(d),
            ) + seq![removal_of(dirs.last())]);
        } else {
            assert(dirs.filter(pred) == before);
        }
    } else {
        assert(cleanup_plan(current_dir, dirs) =~= Seq::<ChangeView>::empty());
        assert(dirs.filter(pred) =~= Seq::<String>::empty());
    }
}

/// The move that sends file `src` into directory `target`, which is taken
/// under `dir` when it is relative.
pub open spec fn move_into(dir: Seq<char>, src: Seq<char>, target: Seq<char>) -> ChangeView {
    let resolved = if path_is_relative(target) {
        path_join(dir, target)
    } else {
        target
    };
    let dest = path_join(resolved, path_file_name(src)->0);
    ChangeView { src, dst: dest, description: "Sort file "@ + src + " -> "@ + dest, kind: ChangeKind::Move }
}

/// Sorting goes by the file's extension as `Path::extension` gives it (the
/// text after the last dot of its name), lowercased: a file whose extension
/// is mapped goes to its category's target, falling back to the target of
/// `Others` when the category has none; a file whose extension is not mapped
/// goes to the target of `Others`.  Directories, files without an extension,
/// and files with no target at all are left where they are.
pub proof fn lemma_sort_goes_by_extension(
    dir: Seq<char>,
    e: DirEntry,
    ext_map: Map<Seq<char>, Seq<char>>,
    targets: Map<Seq<char>, Seq<char>>,
)
    ensures
        !e.is_file || path_extension(e.path@) is None ==> sort_change(dir, e, ext_map, targets) is None,
        e.is_file && path_extension(e.path@) is Some ==> {
            let key = lowercase(path_extension(e.path@)->0);
            &&& ext_map.contains_key(key) && targets.contains_key(ext_map[key]) ==> sort_change(
                dir,
                e,
                ext_map,
                targets,
            ) == Some(move_into(dir, e.path@, targets[ext_map[key]]))
            &&& !(ext_map.contains_key(key) && targets.contains_key(ext_map[key]))
                && targets.contains_key("Others"@) ==> sort_change(dir, e, ext_map, targets) == Some(
                move_into(dir, e.path@, targets["Others"@]),
            )
            &&& !(ext_map.contains_key(key) && targets.contains_key(ext_map[key]))
                && !targets.contains_key("Others"@) ==> sort_change(dir, e, ext_map, targets) is None
        },
{
}

/// The name a rename gives a file: the prefix exactly as typed, then the
/// file's stem in the chosen case, then the file's extension behind a dot
/// when it has one.
pub open spec fn name_after_rename(path: Seq<char>, prefix: Seq<char>, case: RenameCase) -> Seq<char> {
    let stem = path_file_stem(path)->0;
    let body = match case {
        RenameCase::Lowercase => lowercase(stem),
        RenameCase::Uppercase => uppercase(stem),
        RenameCase::CamelCase => camel_case(stem),
    };
    prefix + body + match path_extension(path) {
        Some(x) => "."@ + x,
        None => Seq::empty(),
    }
}

/// A rename keeps the file where it is and gives it the prefix exactly as
/// typed (never recased), then its recased stem, then its extension; it is
/// staged exactly when the file and the renamed file have names.
pub proof fn lemma_rename_keeps_prefix(path: Seq<char>, prefix: Seq<char>, case: RenameCase)
    ensures
        rename_change(path, prefix, case) is Some <==> path_file_stem(path) is Some && path_file_name(
            path_with_file_name(path, name_after_rename(path, prefix, case)),
        ) is Some,
        rename_change(path, prefix, case) matches Some(c) ==> {
            &&& c.src == path
            &&& c.dst == path_with_file_name(path, name_after_rename(path, prefix, case))
            &&& c.kind == ChangeKind::Move
            &&& name_after_rename(path, prefix, case).take(prefix.len() as int) == prefix
        },
{
    let n = name_after_rename(path, prefix, case);
    assert(n.take(prefix.len() as int) =~= prefix);
}

/// The paths, in order, of the files among `s` whose hash is `h`.
pub open spec fn files_with_hash(s: Seq<(String, String)>, h: Seq<char>) -> Seq<Seq<char>> {
    s.filter(|p: (String, String)| p.1@ == h).map_values(|p: (String, String)| p.0@)
}

proof fn lemma_paths_with_hash_are_all(s: Seq<(String, String)>, h: Seq<char>)
    ensures
        paths_with_hash(s, h) == files_with_hash(s, h),
    decreases s.len(),
{
    let pred = |p: (String, String)| p.1@ == h;
    reveal(Seq::filter);
    if s.len() > 0 {
        lemma_paths_with_hash_are_all(s.drop_last(), h);
        let before = s.drop_last().filter(pred);
        if pred(s.last()) {
            assert(s.filter(pred) == before.push(s.last()));
            assert(before.push(s.last()).map_values(|p: (String, String)| p.0@) =~= before.map_values(
                |p: (String, String)| p.0@,
            ).push(s.last().0@));
        } else {
            assert(s.filter(pred) == before);
        }
    } else {
        assert(s.filter(pred) =~= Seq::<(String, String)>::empty());
        assert(files_with_hash(s, h) =~= Seq::<Seq<char>>::empty());
    }
}

proof fn lemma_hash_listed(s: Seq<(String, String)>, i: int)
    requires
        0 <= i < s.len(),
    ensures
        distinct_hashes(s).contains(s[i].1@),
    decreases s.len(),
{
    let d = distinct_hashes(s.drop_last());
    if i < s.len() - 1 {
        lemma_hash_listed(s.drop_last(), i);
        assert(s.drop_last()[i] == s[i]);
        let k = choose|k: int| 0 <= k < d.len() && d[k] == s[i].1@;
        if !d.contains(s.last().1@) {
            assert(d.push(s.last().1@)[k] == s[i].1@);
        }
    } else {
        if !d.contains(s.last().1@) {
            assert(d.push(s.last().1@)[d.len() as int] == s[i].1@);
        }
    }
}

proof fn lemma_shared_group_present(hs: Seq<Seq<char>>, s: Seq<(String, String)>, h: Seq<char>)
    requires
        hs.contains(h),
        paths_with_hash(s, h).len() > 1,
    ensures
        shared_groups(hs, s).contains(paths_with_hash(s, h)),
    decreases hs.len(),
{
    let rest = shared_groups(hs.drop_last(), s);
    if hs.last() == h {
        assert(shared_groups(hs, s) == rest.push(paths_with_hash(s, h)));
        assert(shared_groups(hs, s)[rest.len() as int] == paths_with_hash(s, h));
    } else {
        let k = choose|k: int| 0 <= k < hs.len() && hs[k] == h;
        assert(hs.drop_last()[k] == h);
        lemma_shared_group_present(hs.drop_last(), s, h);
        let t = choose|t: int| 0 <= t < rest.len() && rest[t] == paths_with_hash(s, h);
        if paths_with_hash(s, hs.last()).len() > 1 {
            assert(shared_groups(hs, s)[t] == rest[t]);
        }
    }
}

/// `group` lists, in order, all the files among `s` that share one hash,
/// and there are at least two of them.
pub open spec fn is_hash_group(s: Seq<(String, String)>, group: Seq<Seq<char>>) -> bool {
    exists|h: Seq<char>| group == #[trigger] files_with_hash(s, h) && group.len() > 1
}

/// Each duplicate group is the complete list, in order, of the files that
/// share one hash, and there are at least two of them; and every file whose
/// hash is shared with another file is in the group of that hash.
pub proof fn lemma_duplicate_groups_complete(s: Seq<(String, String)>)
    ensures
        forall|g: int|
            0 <= g < duplicate_groups(s).len() ==> is_hash_group(s, #[trigger] duplicate_groups(s)[g]),
        forall|i: int|
            0 <= i < s.len() && (#[trigger] files_with_hash(s, s[i].1@)).len() > 1
                ==> duplicate_groups(s).contains(files_with_hash(s, s[i].1@)),
{
    crate::laws::lemma_duplicate_groups_share_hash(s);
    assert forall|g: int| 0 <= g < duplicate_groups(s).len() implies is_hash_group(
        s,
        #[trigger] duplicate_groups(s)[g],
    ) by {
        assert(duplicate_groups(s)[g].len() > 1);
        let h = choose|h: Seq<char>| duplicate_groups(s)[g] == paths_with_hash(s, h);
        lemma_paths_with_hash_are_all(s, h);
        assert(duplicate_groups(s)[g] == files_with_hash(s, h) && files_with_hash(s, h).len() > 1);
    }
    assert forall|i: int|
        0 <= i < s.len() && (#[trigger] files_with_hash(s, s[i].1@)).len() > 1 implies duplicate_groups(
        s,
    ).contains(files_with_hash(s, s[i].1@)) by {
        let h = s[i].1@;
        lemma_paths_with_hash_are_all(s, h);
        lemma_hash_listed(s, i);
        lemma_shared_group_present(distinct_hashes(s), s, h);
    }
}

/// A batch rename stages one rename for each file among the entries, in
/// order, and nothing for directories; it can be planned exactly when every
/// file's rename can.
pub proof fn lemma_rename_plan_covers_every_file(
    entries: Seq<DirEntry>,
    prefix: Seq<char>,
    case: RenameCase,
)
    ensures
        rename_plan(entries, prefix, case) is Some <==> forall|i: int|
            0 <= i < entries.len() && (#[trigger] entries[i]).is_file ==> rename_change(
                entries[i].path@,
                prefix,
                case,
            ) is Some,
        rename_plan(entries, prefix, case) matches Some(plan) ==> plan == entries.filter(
            |e: DirEntry| e.is_file,
        ).map_values(|e: DirEntry| rename_change(e.path@, prefix, case)->0),
    decreases entries.len(),
{
    let pred = |e: DirEntry| e.is_file;
    let f = |e: DirEntry| rename_change(e.path@, prefix, case)->0;
    reveal(Seq::filter);
    if entries.len() > 0 {
        let ed = entries.drop_last();
        lemma_rename_plan_covers_every_file(ed, prefix, case);
        assert forall|i: int| 0 <= i < ed.len() implies #[trigger] ed[i] == entries[i] by {}
        let before = ed.filter(pred);
        if pred(entries.last()) {
            assert(entries.filter(pred) == before.push(entries.last()));
            assert(before.push(entries.last()).map_values(f) =~= before.map_values(f).push(
                f(entries.last()),
            ));
        } else {
            assert(entries.filter(pred) == before);
        }
        if forall|i: int|
            0 <= i < entries.len() && (#[trigger] entries[i]).is_file ==> rename_change(
                entries[i].path@,
                prefix,
                case,
            ) is Some {
            assert forall|i: int|
                0 <= i < ed.len() && (#[trigger] ed[i]).is_file implies rename_change(
                ed[i].path@,
                prefix,
                case,
            ) is Some by {
                assert(entries[i] == ed[i]);
            }
            if entries.last().is_file {
                assert(entries[entries.len() - 1] == entries.last());
            }
        }
        if rename_plan(entries, prefix, case) is Some {
            assert forall|i: int|
                0 <= i < entries.len() && (#[trigger] entries[i]).is_file implies rename_change(
                entries[i].path@,
                prefix,
                case,
            ) is Some by {
                if i < ed.len() {
                    assert(ed[i] == entries[i]);
                }
            }
        }
    } else {
        assert(entries.filter(pred) =~= Seq::<DirEntry>::empty());
        assert(entries.filter(pred).map_values(f) =~= Seq::<ChangeView>::empty());
    }
}

/// A name passes a filter by the regex when the query is a valid regex
/// (a match anywhere in the name), and otherwise by plain-text containment
/// with case ignored on both sides.
pub proof fn lemma_filter_rule(query: Seq<char>, name: Seq<char>)
    ensures
        regex_compiles(query) ==> (name_passes(query, name) <==> regex_is_match(query, name)),
        !regex_compiles(query) ==> (name_passes(query, name) <==> contains_text(
            lowercase(name),
            lowercase(query),
        )),
{
}

} // verus!
