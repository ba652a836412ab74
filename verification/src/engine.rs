//! The file manager's computations: ordering a listing, filtering it,
//! planning sorts, renames and clean-ups, ranking large files and grouping
//! duplicates.  Reading the disk is left to the caller, which hands these
//! functions what it read.

use vstd::prelude::*;
use crate::config::AppConfig;
use crate::models::{
    ChangeKind, ChangeView, DirEntry, FileItem, PendingChange, RenameCase, StepView, UndoKind,
    UndoLog, UndoStep, UndoView,
};
use crate::paths::{
    extension_of, file_name_of, file_stem_of, is_relative, join, path_eq, path_extension,
    path_file_name, path_file_stem, path_is_relative, path_join, path_with_file_name, same_path,
    with_file_name,
};
use crate::pattern::{regex_compiles, regex_is_match, RegexFilter};
use crate::order::{
    insert_in_order, insert_position, lemma_insert_into_prefix, lemma_insert_position,
    lemma_stable_sort_permutes, stable_sort, strict_order,
};
use crate::text::{
    char_to_uppercase, char_uppercase, contains, contains_text, owned, push_text, split_pieces,
    split_text, string_of, string_of_range, to_uppercase, uppercase, Separator, lemma_text_lt_irreflexive, lemma_text_lt_total, lemma_text_lt_transitive, lowercase, text_eq,
    text_less, text_lt, to_lowercase,
};

verus! {

// ---------------------------------------------------------------------------
// Ordering a directory listing
// ---------------------------------------------------------------------------

/// Directories come before files; within each, names in lexicographic order.
pub open spec fn listed_before(a: FileItem, b: FileItem) -> bool {
    (a.is_dir && !b.is_dir) || (a.is_dir == b.is_dir && text_lt(a.name@, b.name@))
}

/// The listing order as a relation.
pub open spec fn listing_order() -> spec_fn(FileItem, FileItem) -> bool {
    |a: FileItem, b: FileItem| listed_before(a, b)
}

/// The listing order is a strict order.
pub proof fn lemma_listing_order_strict()
    ensures
        strict_order(listing_order()),
{
    assert forall|a: FileItem| !#[trigger] listing_order()(a, a) by {
        lemma_text_lt_irreflexive(a.name@);
    }
    assert forall|a: FileItem, b: FileItem, c: FileItem|
        #[trigger] listing_order()(a, b) && #[trigger] listing_order()(b, c) implies listing_order()(
        a,
        c,
    ) by {
        if a.is_dir == b.is_dir && b.is_dir == c.is_dir {
            lemma_text_lt_transitive(a.name@, b.name@, c.name@);
        }
    }
}

fn comes_before(a: &FileItem, b: &FileItem) -> (r: bool)
    ensures
        r == listed_before(*a, *b),
{
    if a.is_dir && !b.is_dir {
        true
    } else if a.is_dir == b.is_dir {
        text_less(a.name.as_str(), b.name.as_str())
    } else {
        false
    }
}

/// The one position that is the first `x` comes before.
proof fn lemma_position_unique<A>(s: Seq<A>, x: A, before: spec_fn(A, A) -> bool, j: int)
    requires
        0 <= j <= s.len(),
        forall|t: int| 0 <= t < j ==> !before(x, #[trigger] s[t]),
        j < s.len() ==> before(x, s[j]),
    ensures
        j == insert_position(s, x, before),
        insert_in_order(s, x, before) == s.insert(j, x),
{
    lemma_insert_position(s, x, before);
    let p = insert_position(s, x, before);
    if p < j {
        assert(!before(x, s[p]));
    }
    if j < p {
        assert(!before(x, s[j]));
    }
}

/// A directory listing in display order: directories first, then files,
/// each group by name; entries that compare equal keep their order.
pub fn order_listing(files: Vec<FileItem>) -> (res: Vec<FileItem>)
    ensures
        res@ == stable_sort(files@, listing_order()),
{
    let mut res: Vec<FileItem> = Vec::new();
    let n = files.len();
    let mut i: usize = 0;
    assert(files@.take(0) =~= Seq::<FileItem>::empty());
    while i < n
        invariant
            n == files@.len(),
            i <= n,
            res@ == stable_sort(files@.take(i as int), listing_order()),
        decreases n - i,
    {
        let x = files[i].clone();
        let mut j: usize = 0;
        while j < res.len() && !comes_before(&x, &res[j])
            invariant
                j <= res@.len(),
                forall|t: int| 0 <= t < j ==> !listing_order()(x, #[trigger] res@[t]),
            decreases res@.len() - j,
        {
            j += 1;
        }
        proof {
            lemma_position_unique(res@, x, listing_order(), j as int);
            let pre = files@.take(i as int);
            assert(files@.take(i + 1).drop_last() =~= pre);
            assert(files@.take(i + 1).last() == x);
        }
        res.insert(j, x);
        i += 1;
    }
    assert(files@.take(n as int) =~= files@);
    res
}

// ---------------------------------------------------------------------------
// Large files
// ---------------------------------------------------------------------------

/// Larger files rank before smaller ones.
pub open spec fn larger_first() -> spec_fn((String, u64), (String, u64)) -> bool {
    |a: (String, u64), b: (String, u64)| a.1 > b.1
}

/// The size order is a strict order.
pub proof fn lemma_larger_first_strict()
    ensures
        strict_order(larger_first()),
{
}

/// The at most `max_count` largest files, largest first; files of equal size
/// keep the order in which they were found.
pub fn find_large_files(files: Vec<(String, u64)>, max_count: usize) -> (res: Vec<(String, u64)>)
    ensures
        res@ == stable_sort(files@, larger_first()).take(
            if max_count < files@.len() { max_count as int } else { files@.len() as int },
        ),
        res@.len() <= max_count,
{
    let mut res: Vec<(String, u64)> = Vec::new();
    let n = files.len();
    let mut i: usize = 0;
    assert(files@.take(0) =~= Seq::<(String, u64)>::empty());
    while i < n
        invariant
            n == files@.len(),
            i <= n,
            res@ == stable_sort(files@.take(i as int), larger_first()).take(
                if max_count < i { max_count as int } else { i as int },
            ),
            res@.len() <= max_count,
        decreases n - i,
    {
        let name = files[i].0.clone();
        let x = (name, files[i].1);
        let mut j: usize = 0;
        while j < res.len() && !(x.1 > res[j].1)
            invariant
                j <= res@.len(),
                forall|t: int| 0 <= t < j ==> !larger_first()(x, #[trigger] res@[t]),
            decreases res@.len() - j,
        {
            j += 1;
        }
        let ghost before_insert = res@;
        res.insert(j, x);
        res.truncate(max_count);
        proof {
            let pre = files@.take(i as int);
            let s = stable_sort(pre, larger_first());
            let k: int = if max_count < i { max_count as int } else { i as int };
            let m: int = if max_count < i + 1 { max_count as int } else { i + 1 };
            lemma_position_unique(before_insert, x, larger_first(), j as int);
            assert(files@.take(i + 1).drop_last() =~= pre);
            assert(files@.take(i + 1).last() == x);
            assert(s.len() == i) by {
                lemma_stable_sort_permutes(pre, larger_first());
                vstd::seq_lib::to_multiset_len(pre);
                vstd::seq_lib::to_multiset_len(s);
            }
            lemma_insert_into_prefix(s, x, larger_first(), k, m);
            assert(res@ =~= insert_in_order(s.take(k), x, larger_first()).take(m));
        }
        i += 1;
    }
    assert(files@.take(n as int) =~= files@);
    res
}

// ---------------------------------------------------------------------------
// Duplicate files
// ---------------------------------------------------------------------------

/// The paths, in order, of the files whose content hash is `h`.
pub open spec fn paths_with_hash(s: Seq<(String, String)>, h: Seq<char>) -> Seq<Seq<char>>
    decreases s.len(),
{
    if s.len() == 0 {
        Seq::empty()
    } else if s.last().1@ == h {
        paths_with_hash(s.drop_last(), h).push(s.last().0@)
    } else {
        paths_with_hash(s.drop_last(), h)
    }
}

/// The distinct hashes, in the order of their first occurrence.
pub open spec fn distinct_hashes(s: Seq<(String, String)>) -> Seq<Seq<char>>
    decreases s.len(),
{
    if s.len() == 0 {
        Seq::empty()
    } else if distinct_hashes(s.drop_last()).contains(s.last().1@) {
        distinct_hashes(s.drop_last())
    } else {
        distinct_hashes(s.drop_last()).push(s.last().1@)
    }
}

/// For each hash of `hs` shared by more than one file, the paths of those files.
pub open spec fn shared_groups(hs: Seq<Seq<char>>, s: Seq<(String, String)>) -> Seq<Seq<Seq<char>>>
    decreases hs.len(),
{
    if hs.len() == 0 {
        Seq::empty()
    } else if paths_with_hash(s, hs.last()).len() > 1 {
        shared_groups(hs.drop_last(), s).push(paths_with_hash(s, hs.last()))
    } else {
        shared_groups(hs.drop_last(), s)
    }
}

/// The groups of paths whose files have equal hashes.
pub open spec fn duplicate_groups(s: Seq<(String, String)>) -> Seq<Seq<Seq<char>>> {
    shared_groups(distinct_hashes(s), s)
}

/// A list of lists of strings, by views.
pub open spec fn nested_view(v: Seq<Vec<String>>) -> Seq<Seq<Seq<char>>> {
    v.map_values(|g: Vec<String>| g@.map_values(|p: String| p@))
}

/// A list of strings, by views.
pub open spec fn strings_view(v: Seq<String>) -> Seq<Seq<char>> {
    v.map_values(|p: String| p@)
}

proof fn lemma_hash_absent(s: Seq<(String, String)>, h: Seq<char>)
    requires
        !distinct_hashes(s).contains(h),
    ensures
        paths_with_hash(s, h).len() == 0,
    decreases s.len(),
{
    if s.len() > 0 {
        if s.last().1@ == h {
            assert(distinct_hashes(s).contains(h)) by {
                let d = distinct_hashes(s.drop_last());
                if !d.contains(h) {
                    assert(d.push(h)[d.len() as int] == h);
                }
            }
        }
        assert(!distinct_hashes(s.drop_last()).contains(h)) by {
            let d = distinct_hashes(s.drop_last());
            if d.contains(h) {
                let k = choose|k: int| 0 <= k < d.len() && d[k] == h;
                if !d.contains(s.last().1@) {
                    assert(d.push(s.last().1@)[k] == h);
                }
            }
        }
        lemma_hash_absent(s.drop_last(), h);
    }
}

proof fn lemma_distinct_no_dup(s: Seq<(String, String)>)
    ensures
        distinct_hashes(s).no_duplicates(),
    decreases s.len(),
{
    if s.len() > 0 {
        lemma_distinct_no_dup(s.drop_last());
    }
}

/// The groups of files that share a content hash.  `hashed` holds each
/// file's path and hash, in the order the files were found.  Each group lists
/// its paths in that order; groups come in the order of their hash's first
/// occurrence; only hashes shared by at least two files make a group.
pub fn find_duplicate_files(hashed: &Vec<(String, String)>) -> (res: Vec<Vec<String>>)
    ensures
        nested_view(res@) == duplicate_groups(hashed@),
{
    let mut hashes: Vec<String> = Vec::new();
    let mut members: Vec<Vec<String>> = Vec::new();
    let n = hashed.len();
    let mut i: usize = 0;
    assert(hashed@.take(0) =~= Seq::<(String, String)>::empty());
    while i < n
        invariant
            n == hashed@.len(),
            i <= n,
            hashes@.len() == members@.len(),
            strings_view(hashes@) == distinct_hashes(hashed@.take(i as int)),
            forall|g: int|
                0 <= g < members@.len() ==> strings_view(#[trigger] members@[g]@) == paths_with_hash(
                    hashed@.take(i as int),
                    hashes@[g]@,
                ),
        decreases n - i,
    {
        let pre = Ghost(hashed@.take(i as int));
        let post = Ghost(hashed@.take(i + 1));
        proof {
            assert(post@.drop_last() =~= pre@);
            assert(post@.last() == hashed@[i as int]);
        }
        let path = hashed[i].0.clone();
        let hash = hashed[i].1.clone();
        let mut g: usize = 0;
        while g < hashes.len() && !text_eq(hashes[g].as_str(), hash.as_str())
            invariant
                g <= hashes@.len(),
                forall|t: int| 0 <= t < g ==> #[trigger] hashes@[t]@ != hash@,
            decreases hashes@.len() - g,
        {
            g += 1;
        }
        if g < hashes.len() {
            let ghost old_members = members@;
            let mut group = members.remove(g);
            group.push(path);
            members.insert(g, group);
            proof {
                assert(strings_view(hashes@)[g as int] == hash@);
                assert(distinct_hashes(pre@).contains(hash@));
                assert(distinct_hashes(post@) == distinct_hashes(pre@));
                assert forall|t: int| 0 <= t < members@.len() implies strings_view(
                    #[trigger] members@[t]@,
                ) == paths_with_hash(post@, hashes@[t]@) by {
                    if t == g {
                        assert(strings_view(members@[t]@) =~= strings_view(old_members[t]@).push(
                            path@,
                        ));
                    } else {
                        assert(members@[t] == old_members[t]);
                        lemma_distinct_no_dup(pre@);
                        assert(strings_view(hashes@)[t] != strings_view(hashes@)[g as int]);
                    }
                }
            }
        } else {
            let ghost old_members = members@;
            let mut group: Vec<String> = Vec::new();
            group.push(path);
            members.push(group);
            let hash_copy = hash.clone();
            hashes.push(hash_copy);
            proof {
                assert(!distinct_hashes(pre@).contains(hash@)) by {
                    if distinct_hashes(pre@).contains(hash@) {
                        let k = choose|k: int|
                            0 <= k < distinct_hashes(pre@).len() && distinct_hashes(pre@)[k]
                                == hash@;
                        assert(hashes@[k]@ == hash@);
                    }
                }
                lemma_hash_absent(pre@, hash@);
                assert(strings_view(hashes@) =~= distinct_hashes(post@));
                assert forall|t: int| 0 <= t < members@.len() implies strings_view(
                    #[trigger] members@[t]@,
                ) == paths_with_hash(post@, hashes@[t]@) by {
                    if t == old_members.len() {
                        assert(paths_with_hash(pre@, hash@) =~= Seq::<Seq<char>>::empty());
                        assert(strings_view(members@[t]@) =~= seq![path@]);
                    } else {
                        assert(members@[t] == old_members[t]);
                        assert(strings_view(hashes@)[t] == distinct_hashes(pre@)[t]);
                        assert(distinct_hashes(pre@)[t] != hash@);
                    }
                }
            }
        }
        i += 1;
    }
    assert(hashed@.take(n as int) =~= hashed@);
    let mut res: Vec<Vec<String>> = Vec::new();
    let m = hashes.len();
    let mut k: usize = 0;
    while k < m
        invariant
            m == hashes@.len() == members@.len(),
            k <= m,
            strings_view(hashes@) == distinct_hashes(hashed@),
            forall|g: int|
                0 <= g < members@.len() ==> strings_view(#[trigger] members@[g]@) == paths_with_hash(
                    hashed@,
                    hashes@[g]@,
                ),
            nested_view(res@) == shared_groups(distinct_hashes(hashed@).take(k as int), hashed@),
        decreases m - k,
    {
        let ghost hs = distinct_hashes(hashed@);
        proof {
            assert(hs.take(k + 1).drop_last() =~= hs.take(k as int));
            assert(hs.take(k + 1).last() == hashes@[k as int]@);
            assert(strings_view(members@[k as int]@).len() == members@[k as int]@.len());
        }
        if members[k].len() > 1 {
            let group = members[k].clone();
            let ghost before = res@;
            res.push(group);
            proof {
                assert(nested_view(res@) =~= nested_view(before).push(
                    strings_view(members@[k as int]@),
                ));
            }
        }
        k += 1;
    }
    assert(distinct_hashes(hashed@).take(m as int) =~= distinct_hashes(hashed@));
    res
}

// ---------------------------------------------------------------------------
// Filtering
// ---------------------------------------------------------------------------

/// Whether a file name passes the query: by the regex where the query is a
/// valid regex, otherwise by case-insensitive plain-text containment.
pub open spec fn name_passes(query: Seq<char>, name: Seq<char>) -> bool {
    if regex_compiles(query) {
        regex_is_match(query, name)
    } else {
        contains_text(lowercase(name), lowercase(query))
    }
}

/// The files whose names pass the query, in order; the flag tells whether
/// the plain-text fallback was used (the query is not a valid regex).
pub fn filter_files(files: &[FileItem], query: &str) -> (res: (Vec<FileItem>, bool))
    ensures
        res.1 == !regex_compiles(query@),
        res.0@ == files@.filter(|f: FileItem| name_passes(query@, f.name@)),
{
    let compiled = RegexFilter::compile(query);
    let lower_query = to_lowercase(query);
    let ghost pred = |f: FileItem| name_passes(query@, f.name@);
    let mut out: Vec<FileItem> = Vec::new();
    let n = files.len();
    let mut i: usize = 0;
    assert(files@.take(0) =~= Seq::<FileItem>::empty());
    while i < n
        invariant
            n == files@.len(),
            i <= n,
            compiled is Some <==> regex_compiles(query@),
            compiled matches Some(f) ==> f.pattern() == query@,
            lower_query@ == lowercase(query@),
            pred == (|f: FileItem| name_passes(query@, f.name@)),
            out@ == files@.take(i as int).filter(pred),
        decreases n - i,
    {
        let keep = match &compiled {
            Some(re) => re.is_match(files[i].name.as_str()),
            None => {
                let lower_name = to_lowercase(files[i].name.as_str());
                contains(lower_name.as_str(), lower_query.as_str())
            },
        };
        proof {
            assert(files@.take(i + 1).drop_last() =~= files@.take(i as int));
            reveal(Seq::filter);
        }
        if keep {
            out.push(files[i].clone());
        }
        i += 1;
    }
    assert(files@.take(n as int) =~= files@);
    (out, compiled.is_none())
}

// ---------------------------------------------------------------------------
// Sorting files into category directories
// ---------------------------------------------------------------------------

/// The staged changes, by views.
pub open spec fn changes_view(v: Seq<PendingChange>) -> Seq<ChangeView> {
    v.map_values(|c: PendingChange| c@)
}

/// The category of an extension: its lowercase form's entry, or `Others`.
pub open spec fn category_of(ext_map: Map<Seq<char>, Seq<char>>, ext: Seq<char>) -> Seq<char> {
    if ext_map.contains_key(lowercase(ext)) {
        ext_map[lowercase(ext)]
    } else {
        "Others"@
    }
}

/// The target directory of a category, falling back to that of `Others`.
pub open spec fn target_of(targets: Map<Seq<char>, Seq<char>>, category: Seq<char>) -> Option<
    Seq<char>,
> {
    if targets.contains_key(category) {
        Some(targets[category])
    } else if targets.contains_key("Others"@) {
        Some(targets["Others"@])
    } else {
        None
    }
}

/// The move that sorting stages for one directory entry, if any: a file with
/// an extension goes into its category's target, which is taken relative to
/// the directory being sorted unless it is absolute.
pub open spec fn sort_change(
    dir: Seq<char>,
    e: DirEntry,
    ext_map: Map<Seq<char>, Seq<char>>,
    targets: Map<Seq<char>, Seq<char>>,
) -> Option<ChangeView> {
    if !e.is_file {
        None
    } else {
        match path_extension(e.path@) {
            None => None,
            Some(ext) => match target_of(targets, category_of(ext_map, ext)) {
                None => None,
                Some(t) => {
                    let resolved = if path_is_relative(t) {
                        path_join(dir, t)
                    } else {
                        t
                    };
                    let dest = path_join(resolved, path_file_name(e.path@)->0);
                    Some(
                        ChangeView {
                            src: e.path@,
                            dst: dest,
                            description: "Sort file "@ + e.path@ + " -> "@ + dest,
                            kind: ChangeKind::Move,
                        },
                    )
                },
            },
        }
    }
}

fn sort_change_for(current_dir: &str, e: &DirEntry, config: &AppConfig) -> (r: Option<
    PendingChange,
>)
    requires
        config.wf(),
    ensures
        r matches Some(c) ==> sort_change(
            current_dir@,
            *e,
            config.extension_map@,
            config.sort_targets@,
        ) == Some(c@),
        r is None ==> sort_change(current_dir@, *e, config.extension_map@, config.sort_targets@)
            is None,
{
    if !e.is_file {
        return None;
    }
    let ext = match extension_of(e.path.as_str()) {
        Some(x) => x,
        None => return None,
    };
    let ext_lower = to_lowercase(ext.as_str());
    let category = match config.extension_map.get(ext_lower.as_str()) {
        Some(c) => c.clone(),
        None => owned("Others"),
    };
    let target = match config.sort_targets.get(category.as_str()) {
        Some(t) => t,
        None => match config.sort_targets.get("Others") {
            Some(t) => t,
            None => return None,
        },
    };
    let resolved = if is_relative(target.as_str()) {
        join(current_dir, target.as_str())
    } else {
        target.clone()
    };
    let name = match file_name_of(e.path.as_str()) {
        Some(n) => n,
        None => return None,
    };
    let dest = join(resolved.as_str(), name.as_str());
    let mut description = owned("Sort file ");
    push_text(&mut description, e.path.as_str());
    push_text(&mut description, " -> ");
    push_text(&mut description, dest.as_str());
    Some(PendingChange { src: e.path.clone(), dst: dest, description, kind: ChangeKind::Move })
}

/// The moves that sort the files of `current_dir` into category directories.
/// `entries` are the directory's entries as read, in that order.
pub fn generate_sort_changes(current_dir: &str, entries: &[DirEntry], config: &AppConfig) -> (res:
    Vec<PendingChange>)
    requires
        config.wf(),
    ensures
        changes_view(res@) == entries@.filter_map(
            |e: DirEntry|
                sort_change(current_dir@, e, config.extension_map@, config.sort_targets@),
        ),
{
    let ghost f = |e: DirEntry|
        sort_change(current_dir@, e, config.extension_map@, config.sort_targets@);
    let mut out: Vec<PendingChange> = Vec::new();
    let n = entries.len();
    let mut i: usize = 0;
    assert(entries@.take(0) =~= Seq::<DirEntry>::empty());
    while i < n
        invariant
            n == entries@.len(),
            i <= n,
            config.wf(),
            f == (|e: DirEntry|
                sort_change(current_dir@, e, config.extension_map@, config.sort_targets@)),
            changes_view(out@) == entries@.take(i as int).filter_map(f),
        decreases n - i,
    {
        proof {
            assert(entries@.take(i + 1).drop_last() =~= entries@.take(i as int));
            assert(entries@.take(i + 1).last() == entries@[i as int]);
        }
        match sort_change_for(current_dir, &entries[i], config) {
            Some(c) => {
                let ghost before = out@;
                out.push(c);
                assert(changes_view(out@) =~= changes_view(before) + seq![c@]);
            },
            None => {},
        }
        i += 1;
    }
    assert(entries@.take(n as int) =~= entries@);
    out
}

// ---------------------------------------------------------------------------
// Removing empty directories
// ---------------------------------------------------------------------------

/// The removal staged for an empty directory: any but the current one.
pub open spec fn cleanup_change(current_dir: Seq<char>, dir: Seq<char>) -> Option<ChangeView> {
    if path_eq(dir, current_dir) {
        None
    } else {
        Some(
            ChangeView {
                src: dir,
                dst: Seq::empty(),
                description: "Delete empty target directory layout node: "@ + dir,
                kind: ChangeKind::DeleteDir,
            },
        )
    }
}

/// The removals staged for the empty directories found, in order.
pub open spec fn cleanup_plan(current_dir: Seq<char>, dirs: Seq<String>) -> Seq<ChangeView> {
    dirs.filter_map(|d: String| cleanup_change(current_dir, d@))
}

/// The removals that clean up empty directories.  `empty_dirs` are the
/// directories found empty under `current_dir`, in the order found.
pub fn generate_cleanup_changes(
    current_dir: &str,
    empty_dirs: &[String],
    _config: &AppConfig,
) -> (res: Vec<PendingChange>)
    ensures
        changes_view(res@) == cleanup_plan(current_dir@, empty_dirs@),
{
    let ghost f = |d: String| cleanup_change(current_dir@, d@);
    let mut out: Vec<PendingChange> = Vec::new();
    let n = empty_dirs.len();
    let mut i: usize = 0;
    assert(empty_dirs@.take(0) =~= Seq::<String>::empty());
    while i < n
        invariant
            n == empty_dirs@.len(),
            i <= n,
            f == (|d: String| cleanup_change(current_dir@, d@)),
            changes_view(out@) == empty_dirs@.take(i as int).filter_map(f),
        decreases n - i,
    {
        proof {
            assert(empty_dirs@.take(i + 1).drop_last() =~= empty_dirs@.take(i as int));
            assert(empty_dirs@.take(i + 1).last() == empty_dirs@[i as int]);
        }
        let d = &empty_dirs[i];
        if !same_path(d.as_str(), current_dir) {
            let mut description = owned("Delete empty target directory layout node: ");
            push_text(&mut description, d.as_str());
            let c = PendingChange {
                src: d.clone(),
                dst: String::new(),
                description,
                kind: ChangeKind::DeleteDir,
            };
            let ghost before = out@;
            out.push(c);
            assert(changes_view(out@) =~= changes_view(before) + seq![c@]);
        }
        i += 1;
    }
    assert(empty_dirs@.take(n as int) =~= empty_dirs@);
    out
}

// ---------------------------------------------------------------------------
// Batch rename
// ---------------------------------------------------------------------------

/// One word of a camelCase name: the first word all lowercase, each later
/// one with its first character uppercased and the rest lowercased.
pub open spec fn camel_piece(i: int, w: Seq<char>) -> Seq<char> {
    if i == 0 {
        lowercase(w)
    } else if w.len() == 0 {
        Seq::empty()
    } else {
        char_uppercase(w[0]) + lowercase(w.drop_first())
    }
}

/// The camelCase pieces of the words `ws`, joined.
pub open spec fn camel_join(ws: Seq<Seq<char>>) -> Seq<char>
    decreases ws.len(),
{
    if ws.len() == 0 {
        Seq::empty()
    } else {
        camel_join(ws.drop_last()) + camel_piece(ws.len() - 1, ws.last())
    }
}

/// `s` in camelCase: split at white space, `_` and `-`, then joined.
pub open spec fn camel_case(s: Seq<char>) -> Seq<char> {
    camel_join(split_pieces(s, Separator::WordBreak))
}

/// Converts `s` to camelCase.
pub fn to_camel_case(s: &str) -> (res: String)
    ensures
        res@ == camel_case(s@),
{
    let words = split_text(s, Separator::WordBreak);
    let ghost ws = words@.map_values(|w: Vec<char>| w@);
    let mut res = String::new();
    let n = words.len();
    let mut i: usize = 0;
    assert(ws.take(0) =~= Seq::<Seq<char>>::empty());
    while i < n
        invariant
            n == words@.len() == ws.len(),
            i <= n,
            ws == words@.map_values(|w: Vec<char>| w@),
            res@ == camel_join(ws.take(i as int)),
        decreases n - i,
    {
        let w = &words[i];
        proof {
            assert(ws.take(i + 1).drop_last() =~= ws.take(i as int));
            assert(ws.take(i + 1).last() == w@);
        }
        if i == 0 {
            let word = string_of(w.as_slice());
            let lower = to_lowercase(word.as_str());
            push_text(&mut res, lower.as_str());
        } else if w.len() > 0 {
            let first = char_to_uppercase(w[0]);
            push_text(&mut res, first.as_str());
            let rest = string_of_range(w.as_slice(), 1, w.len());
            let lower = to_lowercase(rest.as_str());
            push_text(&mut res, lower.as_str());
            assert(w@.subrange(1, w@.len() as int) =~= w@.drop_first());
        }
        i += 1;
    }
    assert(ws.take(n as int) =~= ws);
    res
}

/// A stem with the chosen case applied.
pub open spec fn recased(stem: Seq<char>, case: RenameCase) -> Seq<char> {
    match case {
        RenameCase::Lowercase => lowercase(stem),
        RenameCase::Uppercase => uppercase(stem),
        RenameCase::CamelCase => camel_case(stem),
    }
}

/// The new file name: prefix, recased stem, and the extension with its dot.
pub open spec fn renamed_name(path: Seq<char>, prefix: Seq<char>, case: RenameCase) -> Seq<char> {
    let ext = match path_extension(path) {
        Some(e) => "."@ + e,
        None => Seq::empty(),
    };
    prefix + recased(path_file_stem(path)->0, case) + ext
}

/// The rename staged for a file, or `None` where a rename of it cannot be
/// described (the path or the new path has no file name).
pub open spec fn rename_change(path: Seq<char>, prefix: Seq<char>, case: RenameCase) -> Option<
    ChangeView,
> {
    if path_file_stem(path) is None {
        None
    } else {
        let dest = path_with_file_name(path, renamed_name(path, prefix, case));
        match path_file_name(dest) {
            None => None,
            Some(dest_name) => Some(
                ChangeView {
                    src: path,
                    dst: dest,
                    description: "Rename transformation: "@ + path_file_name(path)->0 + " -> "@
                        + dest_name,
                    kind: ChangeKind::Move,
                },
            ),
        }
    }
}

/// The renames for the files among `entries`, in order; `None` if one of
/// them cannot be described.
pub open spec fn rename_plan(entries: Seq<DirEntry>, prefix: Seq<char>, case: RenameCase) -> Option<
    Seq<ChangeView>,
>
    decreases entries.len(),
{
    if entries.len() == 0 {
        Some(Seq::empty())
    } else {
        match rename_plan(entries.drop_last(), prefix, case) {
            None => None,
            Some(done) => if !entries.last().is_file {
                Some(done)
            } else {
                match rename_change(entries.last().path@, prefix, case) {
                    None => None,
                    Some(c) => Some(done.push(c)),
                }
            },
        }
    }
}

fn rename_change_for(path: &str, prefix: &str, case: RenameCase) -> (r: Option<PendingChange>)
    ensures
        r matches Some(c) ==> rename_change(path@, prefix@, case) == Some(c@),
        r is None ==> rename_change(path@, prefix@, case) is None,
{
    let stem = match file_stem_of(path) {
        Some(s) => s,
        None => return None,
    };
    let mut new_name = owned(prefix);
    let modulated = match case {
        RenameCase::Lowercase => to_lowercase(stem.as_str()),
        RenameCase::Uppercase => to_uppercase(stem.as_str()),
        RenameCase::CamelCase => to_camel_case(stem.as_str()),
    };
    push_text(&mut new_name, modulated.as_str());
    match extension_of(path) {
        Some(e) => {
            push_text(&mut new_name, ".");
            push_text(&mut new_name, e.as_str());
        },
        None => {},
    }
    proof {
        let ext = match path_extension(path@) {
            Some(e) => "."@ + e,
            None => Seq::empty(),
        };
        assert(new_name@ =~= prefix@ + recased(stem@, case) + ext);
    }
    let dest = with_file_name(path, new_name.as_str());
    let old_name = match file_name_of(path) {
        Some(n) => n,
        None => return None,
    };
    let dest_name = match file_name_of(dest.as_str()) {
        Some(n) => n,
        None => return None,
    };
    let mut description = owned("Rename transformation: ");
    push_text(&mut description, old_name.as_str());
    push_text(&mut description, " -> ");
    push_text(&mut description, dest_name.as_str());
    Some(PendingChange { src: owned(path), dst: dest, description, kind: ChangeKind::Move })
}

/// The renames that give every file among `entries` the new name: `prefix`,
/// then the file's stem in the chosen case, then its extension.  `None`
/// where a file's old or new path has no file name to describe.
pub fn batch_rename_dry_run(entries: &[DirEntry], prefix: &str, case: RenameCase) -> (res: Option<
    Vec<PendingChange>,
>)
    ensures
        res is None <==> rename_plan(entries@, prefix@, case) is None,
        res matches Some(v) ==> rename_plan(entries@, prefix@, case) == Some(changes_view(v@)),
{
    let mut out: Vec<PendingChange> = Vec::new();
    let n = entries.len();
    let mut i: usize = 0;
    assert(entries@.take(0) =~= Seq::<DirEntry>::empty());
    while i < n
        invariant
            n == entries@.len(),
            i <= n,
            rename_plan(entries@.take(i as int), prefix@, case) == Some(changes_view(out@)),
        decreases n - i,
    {
        proof {
            assert(entries@.take(i + 1).drop_last() =~= entries@.take(i as int));
            assert(entries@.take(i + 1).last() == entries@[i as int]);
        }
        if entries[i].is_file {
            match rename_change_for(entries[i].path.as_str(), prefix, case) {
                Some(c) => {
                    let ghost before = out@;
                    out.push(c);
                    assert(changes_view(out@) =~= changes_view(before).push(c@));
                },
                None => {
                    proof {
                        lemma_rename_plan_stays_none(entries@, (i + 1) as int, prefix@, case);
                    }
                    return None;
                },
            }
        }
        i += 1;
    }
    assert(entries@.take(n as int) =~= entries@);
    Some(out)
}

proof fn lemma_rename_plan_stays_none(
    entries: Seq<DirEntry>,
    k: int,
    prefix: Seq<char>,
    case: RenameCase,
)
    requires
        0 <= k <= entries.len(),
        rename_plan(entries.take(k), prefix, case) is None,
    ensures
        rename_plan(entries, prefix, case) is None,
    decreases entries.len() - k,
{
    if k < entries.len() {
        assert(entries.take(k + 1).drop_last() =~= entries.take(k));
        lemma_rename_plan_stays_none(entries, k + 1, prefix, case);
    } else {
        assert(entries.take(k) =~= entries);
    }
}

// ---------------------------------------------------------------------------
// Undo
// ---------------------------------------------------------------------------

/// The step that undoes one recorded change: a move is renamed back, a
/// removed directory is created again.
pub open spec fn undo_step_of(l: UndoView) -> StepView {
    match l.kind {
        UndoKind::Moved => StepView::Rename(l.new_path, l.old_path),
        UndoKind::RemovedDir => StepView::CreateDir(l.old_path),
    }
}

/// The steps that undo recorded changes: each undone, the last first.
pub open spec fn undo_steps(logs: Seq<UndoView>) -> Seq<StepView>
    decreases logs.len(),
{
    if logs.len() == 0 {
        Seq::empty()
    } else {
        undo_steps(logs.drop_first()).push(undo_step_of(logs[0]))
    }
}

/// The recorded changes, by views.
pub open spec fn logs_view(logs: Seq<UndoLog>) -> Seq<UndoView> {
    logs.map_values(|l: UndoLog| l@)
}

/// The undo steps, by views.
pub open spec fn steps_view(v: Seq<UndoStep>) -> Seq<StepView> {
    v.map_values(|p: UndoStep| p@)
}

proof fn lemma_undo_steps_index(logs: Seq<UndoView>)
    ensures
        undo_steps(logs).len() == logs.len(),
        forall|k: int|
            0 <= k < logs.len() ==> #[trigger] undo_steps(logs)[k] == undo_step_of(
                logs[logs.len() - 1 - k],
            ),
    decreases logs.len(),
{
    if logs.len() > 0 {
        lemma_undo_steps_index(logs.drop_first());
        assert forall|k: int| 0 <= k < logs.len() implies #[trigger] undo_steps(logs)[k]
            == undo_step_of(logs[logs.len() - 1 - k]) by {
            if k < logs.len() - 1 {
                assert(logs.drop_first()[logs.len() - 2 - k] == logs[logs.len() - 1 - k]);
            }
        }
    }
}

/// The steps that undo `logs`, in the order to perform them.
pub fn undo_plan(logs: &[UndoLog]) -> (res: Vec<UndoStep>)
    ensures
        steps_view(res@) == undo_steps(logs_view(logs@)),
{
    let ghost lv = logs_view(logs@);
    proof {
        lemma_undo_steps_index(lv);
    }
    let mut res: Vec<UndoStep> = Vec::new();
    let n = logs.len();
    let mut k: usize = 0;
    while k < n
        invariant
            n == logs@.len() == lv.len(),
            lv == logs_view(logs@),
            k <= n,
            res@.len() == k,
            undo_steps(lv).len() == n,
            forall|t: int| 0 <= t < k ==> #[trigger] steps_view(res@)[t] == undo_steps(lv)[t],
            forall|t: int|
                0 <= t < n ==> #[trigger] undo_steps(lv)[t] == undo_step_of(lv[n - 1 - t]),
        decreases n - k,
    {
        let log = &logs[n - 1 - k];
        let step = match log.kind {
            UndoKind::Moved => UndoStep::Rename(log.new_path.clone(), log.old_path.clone()),
            UndoKind::RemovedDir => UndoStep::CreateDir(log.old_path.clone()),
        };
        assert(step@ == undo_step_of(lv[n - 1 - k]));
        let ghost before = res@;
        res.push(step);
        assert forall|t: int| 0 <= t < k implies #[trigger] steps_view(res@)[t] == undo_steps(lv)[t] by {
            assert(res@[t] == before[t]);
            assert(steps_view(before)[t] == undo_steps(lv)[t]);
        }
        assert(steps_view(res@)[k as int] == undo_steps(lv)[k as int]);
        k += 1;
    }
    assert(steps_view(res@) =~= undo_steps(lv));
    res
}

/// A file tree, each path's entry, with the file that was at `from` now at `to`.
pub open spec fn move_entry<F>(fs: Map<Seq<char>, F>, from: Seq<char>, to: Seq<char>) -> Map<
    Seq<char>,
    F,
> {
    fs.remove(from).insert(to, fs[from])
}

/// A file tree after one recorded change: a move, or a directory removal.
pub open spec fn apply_log<F>(fs: Map<Seq<char>, F>, l: UndoView) -> Map<Seq<char>, F> {
    match l.kind {
        UndoKind::Moved => move_entry(fs, l.old_path, l.new_path),
        UndoKind::RemovedDir => fs.remove(l.old_path),
    }
}

/// The file tree after the recorded changes, in order.
pub open spec fn apply_logs<F>(fs: Map<Seq<char>, F>, logs: Seq<UndoView>) -> Map<Seq<char>, F>
    decreases logs.len(),
{
    if logs.len() == 0 {
        fs
    } else {
        apply_logs(apply_log(fs, logs[0]), logs.drop_first())
    }
}

/// Each recorded change was clean: a move took an existing entry to a free,
/// different path; a removal took away an existing empty directory (an entry
/// equal to `empty_dir`).
pub open spec fn logs_clean<F>(fs: Map<Seq<char>, F>, logs: Seq<UndoView>, empty_dir: F) -> bool
    decreases logs.len(),
{
    if logs.len() == 0 {
        true
    } else {
        &&& fs.contains_key(logs[0].old_path)
        &&& match logs[0].kind {
            UndoKind::Moved => {
                &&& !fs.contains_key(logs[0].new_path)
                &&& logs[0].old_path != logs[0].new_path
            },
            UndoKind::RemovedDir => fs[logs[0].old_path] == empty_dir,
        }
        &&& logs_clean(apply_log(fs, logs[0]), logs.drop_first(), empty_dir)
    }
}

/// A file tree after one undo step: a rename where its source exists, a new
/// empty directory where nothing is.
pub open spec fn undo_step_on<F>(fs: Map<Seq<char>, F>, step: StepView, empty_dir: F) -> Map<
    Seq<char>,
    F,
> {
    match step {
        StepView::Rename(from, to) => if fs.contains_key(from) {
            move_entry(fs, from, to)
        } else {
            fs
        },
        StepView::CreateDir(p) => if fs.contains_key(p) {
            fs
        } else {
            fs.insert(p, empty_dir)
        },
    }
}

/// The file tree after undo steps, in order.
pub open spec fn run_undo<F>(fs: Map<Seq<char>, F>, steps: Seq<StepView>, empty_dir: F) -> Map<
    Seq<char>,
    F,
>
    decreases steps.len(),
{
    if steps.len() == 0 {
        fs
    } else {
        run_undo(undo_step_on(fs, steps[0], empty_dir), steps.drop_first(), empty_dir)
    }
}

proof fn lemma_run_undo_append<F>(
    fs: Map<Seq<char>, F>,
    a: Seq<StepView>,
    b: Seq<StepView>,
    empty_dir: F,
)
    ensures
        run_undo(fs, a + b, empty_dir) == run_undo(run_undo(fs, a, empty_dir), b, empty_dir),
    decreases a.len(),
{
    if a.len() > 0 {
        assert((a + b).drop_first() =~= a.drop_first() + b);
        lemma_run_undo_append(undo_step_on(fs, a[0], empty_dir), a.drop_first(), b, empty_dir);
    } else {
        assert(a + b =~= b);
    }
}

/// Law: undoing a batch of clean changes restores the file tree.  Running
/// the undo plan of the recorded changes (renaming back each file that is
/// still where it was moved, creating again each removed directory that is
/// still missing) gives back the tree the batch started from.
pub proof fn lemma_undo_restores<F>(fs: Map<Seq<char>, F>, logs: Seq<UndoView>, empty_dir: F)
    requires
        logs_clean(fs, logs, empty_dir),
    ensures
        run_undo(apply_logs(fs, logs), undo_steps(logs), empty_dir) == fs,
    decreases logs.len(),
{
    if logs.len() > 0 {
        let l = logs[0];
        let fs1 = apply_log(fs, l);
        lemma_undo_restores(fs1, logs.drop_first(), empty_dir);
        let rest = undo_steps(logs.drop_first());
        let last = seq![undo_step_of(l)];
        assert(undo_steps(logs) =~= rest + last);
        lemma_run_undo_append(apply_logs(fs, logs), rest, last, empty_dir);
        assert(apply_logs(fs, logs) == apply_logs(fs1, logs.drop_first()));
        assert(run_undo(apply_logs(fs, logs), rest, empty_dir) == fs1);
        assert(last.drop_first() =~= Seq::<StepView>::empty());
        let after = undo_step_on(fs1, last[0], empty_dir);
        assert(run_undo(after, last.drop_first(), empty_dir) == after);
        assert(run_undo(fs1, last, empty_dir) == undo_step_on(fs1, undo_step_of(l), empty_dir));
        match l.kind {
            UndoKind::Moved => {
                assert(fs1.contains_key(l.new_path));
                assert(move_entry(fs1, l.new_path, l.old_path) =~= fs);
            },
            UndoKind::RemovedDir => {
                assert(!fs1.contains_key(l.old_path));
                assert(fs1.insert(l.old_path, empty_dir) =~= fs);
            },
        }
    }
}

// ---------------------------------------------------------------------------
// Category names
// ---------------------------------------------------------------------------

/// No two names are the same text.
pub open spec fn names_distinct(s: Seq<String>) -> bool {
    forall|a: int, b: int| 0 <= a < b < s.len() ==> #[trigger] s[a]@ != #[trigger] s[b]@
}

/// Names in strictly ascending order.
pub open spec fn names_ascending(s: Seq<String>) -> bool {
    forall|i: int, j: int| 0 <= i < j < s.len() ==> text_lt(#[trigger] s[i]@, #[trigger] s[j]@)
}

/// Names in ascending order are distinct.
pub proof fn lemma_ascending_distinct(s: Seq<String>)
    requires
        names_ascending(s),
    ensures
        names_distinct(s),
{
    assert forall|a: int, b: int| 0 <= a < b < s.len() implies #[trigger] s[a]@ != #[trigger] s[b]@ by {
        lemma_text_lt_irreflexive(s[a]@);
    }
}

proof fn lemma_insert_name_sorted(before: Seq<String>, x: String, j: int)
    requires
        0 <= j <= before.len(),
        names_ascending(before),
        forall|t: int| 0 <= t < before.len() ==> #[trigger] before[t]@ != x@,
        forall|t: int| 0 <= t < j ==> !text_lt(x@, #[trigger] before[t]@),
        j < before.len() ==> text_lt(x@, before[j]@),
    ensures
        names_ascending(before.insert(j, x)),
{
    let res = before.insert(j, x);
    assert forall|t: int| 0 <= t < j implies text_lt(#[trigger] before[t]@, x@) by {
        lemma_text_lt_total(before[t]@, x@);
    }
    assert forall|a: int, b: int| 0 <= a < b < res.len() implies text_lt(
        #[trigger] res[a]@,
        #[trigger] res[b]@,
    ) by {
        if b < j {
            assert(res[a] == before[a] && res[b] == before[b]);
        } else if b == j {
            assert(res[a] == before[a]);
        } else if a < j {
            assert(res[a] == before[a] && res[b] == before[b - 1]);
            lemma_text_lt_transitive(before[a]@, x@, before[j]@);
            if b - 1 > j {
                lemma_text_lt_transitive(before[a]@, before[j]@, before[b - 1]@);
            }
        } else if a == j {
            assert(res[b] == before[b - 1]);
            if b - 1 > j {
                lemma_text_lt_transitive(x@, before[j]@, before[b - 1]@);
            }
        } else {
            assert(res[a] == before[a - 1] && res[b] == before[b - 1]);
        }
    }
}

/// `res` is `before` with `x` inserted at `j`.
pub open spec fn inserted_at(before: Seq<String>, x: String, j: int, res: Seq<String>) -> bool {
    &&& 0 <= j <= before.len()
    &&& res.len() == before.len() + 1
    &&& res[j] == x
    &&& forall|t: int| 0 <= t < j ==> #[trigger] res[t] == before[t]
    &&& forall|t: int| j < t < res.len() ==> #[trigger] res[t] == before[t - 1]
}

/// Some one of the first `n` entries of `s` has the text `v`.
pub open spec fn view_among(s: Seq<String>, n: int, v: Seq<char>) -> bool {
    exists|t: int| 0 <= t < n && #[trigger] s[t]@ == v
}

/// Whether some name of `s` is the text `k`.
pub open spec fn has_name(s: Seq<String>, k: Seq<char>) -> bool {
    exists|i: int| 0 <= i < s.len() && #[trigger] s[i]@ == k
}

/// `res` holds exactly the texts of the first `i` of `names`.
spec fn holds_first_names(names: Seq<String>, res: Seq<String>, i: int) -> bool {
    &&& forall|a: int| 0 <= a < i ==> has_name(res, #[trigger] names[a]@)
    &&& forall|t: int| 0 <= t < res.len() ==> view_among(names, i, #[trigger] res[t]@)
}

proof fn lemma_insert_name_members(
    names: Seq<String>,
    before: Seq<String>,
    x: String,
    i: int,
    j: int,
    res: Seq<String>,
)
    requires
        0 <= i < names.len(),
        names[i] == x,
        inserted_at(before, x, j, res),
        holds_first_names(names, before, i),
    ensures
        holds_first_names(names, res, i + 1),
{
    assert forall|a: int| 0 <= a < i + 1 implies has_name(res, #[trigger] names[a]@) by {
        if a == i {
            assert(res[j]@ == names[a]@);
        } else {
            assert(has_name(before, names[a]@));
            let t = choose|t: int| 0 <= t < before.len() && #[trigger] before[t]@ == names[a]@;
            if t < j {
                assert(res[t] == before[t]);
            } else {
                assert(res[t + 1] == before[t]);
            }
        }
    }
    assert forall|t: int| 0 <= t < res.len() implies view_among(names, i + 1, #[trigger] res[t]@) by {
        if t == j {
            assert(names[i]@ == res[t]@);
        } else {
            let u = if t < j { t } else { t - 1 };
            assert(before[u] == res[t]);
            assert(view_among(names, i, before[u]@));
            let a = choose|a: int| 0 <= a < i && #[trigger] names[a]@ == before[u]@;
            assert(names[a]@ == res[t]@);
        }
    }
}

proof fn lemma_new_name_absent(names: Seq<String>, res: Seq<String>, i: int)
    requires
        0 <= i < names.len(),
        forall|a: int, b: int|
            0 <= a < b < names.len() ==> #[trigger] names[a]@ != #[trigger] names[b]@,
        holds_first_names(names, res, i),
    ensures
        forall|t: int| 0 <= t < res.len() ==> #[trigger] res[t]@ != names[i]@,
{
    assert forall|t: int| 0 <= t < res.len() implies #[trigger] res[t]@ != names[i]@ by {
        assert(view_among(names, i, res[t]@));
        let a = choose|a: int| 0 <= a < i && #[trigger] names[a]@ == res[t]@;
        assert(names[a]@ != names[i]@);
    }
}

fn name_insertion_point(res: &Vec<String>, x: &String) -> (j: usize)
    ensures
        j <= res@.len(),
        forall|t: int| 0 <= t < j ==> !text_lt(x@, #[trigger] res@[t]@),
        j < res@.len() ==> text_lt(x@, res@[j as int]@),
{
    let mut j: usize = 0;
    while j < res.len() && !text_less(x.as_str(), res[j].as_str())
        invariant
            j <= res@.len(),
            forall|t: int| 0 <= t < j ==> !text_lt(x@, #[trigger] res@[t]@),
        decreases res@.len() - j,
    {
        j += 1;
    }
    j
}

/// Distinct names in ascending order, as `sort` orders strings.
pub fn sort_names(names: Vec<String>) -> (res: Vec<String>)
    requires
        forall|a: int, b: int|
            0 <= a < b < names@.len() ==> #[trigger] names@[a]@ != #[trigger] names@[b]@,
    ensures
        res@.len() == names@.len(),
        forall|i: int, j: int|
            0 <= i < j < res@.len() ==> text_lt(#[trigger] res@[i]@, #[trigger] res@[j]@),
        forall|k: Seq<char>| has_name(res@, k) <==> has_name(names@, k),
{
    let mut res: Vec<String> = Vec::new();
    let n = names.len();
    let mut i: usize = 0;
    while i < n
        invariant
            n == names@.len(),
            i <= n,
            res@.len() == i,
            forall|a: int, b: int|
                0 <= a < b < names@.len() ==> #[trigger] names@[a]@ != #[trigger] names@[b]@,
            names_ascending(res@),
            holds_first_names(names@, res@, i as int),
        decreases n - i,
    {
        let x = names[i].clone();
        proof {
            lemma_new_name_absent(names@, res@, i as int);
        }
        assert(x == names@[i as int]);
        let j = name_insertion_point(&res, &x);
        let ghost before = res@;
        res.insert(j, x);
        proof {
            lemma_insert_name_sorted(before, x, j as int);
            before.insert_ensures(j as int, x);
            assert(inserted_at(before, x, j as int, res@));
            lemma_insert_name_members(names@, before, x, i as int, j as int, res@);
        }
        i += 1;
    }
    assert forall|k: Seq<char>| has_name(res@, k) <==> has_name(names@, k) by {
        if has_name(res@, k) {
            let t = choose|t: int| 0 <= t < res@.len() && #[trigger] res@[t]@ == k;
            assert(view_among(names@, names@.len() as int, res@[t]@));
        }
        if has_name(names@, k) {
            let a = choose|a: int| 0 <= a < names@.len() && #[trigger] names@[a]@ == k;
            assert(has_name(res@, names@[a]@));
        }
    }
    res
}

} // verus!
