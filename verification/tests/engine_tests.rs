use atrus::config::AppConfig;
use atrus::engine::{
    batch_rename_dry_run, filter_files, find_duplicate_files, find_large_files,
    generate_cleanup_changes, generate_sort_changes, order_listing, sort_names, undo_plan,
};
use atrus::models::{
    ChangeKind, DirEntry, FileItem, PendingChange, RenameCase, UndoKind, UndoLog,
    UndoStep,
};
use std::collections::HashMap;

fn item(name: &str, is_dir: bool) -> FileItem {
    FileItem {
        name: name.to_string(),
        path: format!("/d/{}", name),
        size: 0,
        is_dir,
        permissions: "rw-".to_string(),
        modified: "2024-01-01 00:00".to_string(),
    }
}

fn names(v: &[FileItem]) -> Vec<String> {
    v.iter().map(|f| f.name.clone()).collect()
}

fn file(path: &str) -> DirEntry {
    DirEntry { path: path.to_string(), is_file: true }
}

fn dir(path: &str) -> DirEntry {
    DirEntry { path: path.to_string(), is_file: false }
}

fn triple(c: &PendingChange) -> (String, String, String) {
    (c.src.clone(), c.dst.clone(), c.description.clone())
}

#[test]
fn listing_puts_directories_first_then_names() {
    let listing = vec![
        item("zeta.txt", false),
        item("beta", true),
        item("Alpha.txt", false),
        item("alpha", true),
        item("b.txt", false),
    ];
    let ordered = order_listing(listing);
    assert_eq!(names(&ordered), vec!["alpha", "beta", "Alpha.txt", "b.txt", "zeta.txt"]);
    assert!(ordered[0].is_dir && ordered[1].is_dir && !ordered[2].is_dir);
}

#[test]
fn listing_order_law_holds_on_a_listing() {
    let ordered = order_listing(vec![
        item("c", false),
        item("b", true),
        item("a", false),
        item("d", true),
    ]);
    for w in ordered.windows(2) {
        let (a, b) = (&w[0], &w[1]);
        assert!((a.is_dir && !b.is_dir) || (a.is_dir == b.is_dir && a.name < b.name));
    }
}

#[test]
fn large_files_largest_first_and_truncated() {
    let files = vec![
        ("/d/a".to_string(), 10u64),
        ("/d/b".to_string(), 300),
        ("/d/c".to_string(), 20),
        ("/d/d".to_string(), 300),
        ("/d/e".to_string(), 5),
    ];
    let top = find_large_files(files.clone(), 3);
    assert_eq!(
        top,
        vec![("/d/b".to_string(), 300), ("/d/d".to_string(), 300), ("/d/c".to_string(), 20)]
    );
    assert_eq!(find_large_files(files.clone(), 0), vec![]);
    assert_eq!(find_large_files(files, 20).len(), 5);
}

#[test]
fn large_files_are_ranked_by_size() {
    let files: Vec<(String, u64)> =
        (0..30u64).map(|i| (format!("/f{}", i), (i * 7919) % 101)).collect();
    let top = find_large_files(files.clone(), 20);
    assert_eq!(top.len(), 20);
    for w in top.windows(2) {
        assert!(w[0].1 >= w[1].1);
    }
    let smallest_kept = top.last().unwrap().1;
    let left_out = files.iter().filter(|f| !top.contains(f));
    for f in left_out {
        assert!(f.1 <= smallest_kept);
    }
}

#[test]
fn duplicates_grouped_by_hash_in_first_seen_order() {
    let hashed = vec![
        ("/d/a".to_string(), "h1".to_string()),
        ("/d/b".to_string(), "h2".to_string()),
        ("/d/c".to_string(), "h1".to_string()),
        ("/d/d".to_string(), "h3".to_string()),
        ("/d/e".to_string(), "h2".to_string()),
        ("/d/f".to_string(), "h1".to_string()),
    ];
    let groups = find_duplicate_files(&hashed);
    assert_eq!(
        groups,
        vec![
            vec!["/d/a".to_string(), "/d/c".to_string(), "/d/f".to_string()],
            vec!["/d/b".to_string(), "/d/e".to_string()],
        ]
    );
    assert!(find_duplicate_files(&vec![]).is_empty());
}

#[test]
fn duplicate_groups_share_one_hash() {
    let hashed: Vec<(String, String)> =
        (0..12).map(|i| (format!("/p{}", i), format!("h{}", i % 4 + i % 3))).collect();
    let by_path: HashMap<String, String> = hashed.iter().cloned().collect();
    for g in find_duplicate_files(&hashed) {
        assert!(g.len() > 1);
        assert!(g.iter().all(|p| by_path[p] == by_path[&g[0]]));
    }
}

#[test]
fn filter_by_valid_regex() {
    let files = vec![item("report.md", false), item("Report.txt", false), item("notes", false)];
    let (kept, fell_back) = filter_files(&files, "^re");
    assert!(!fell_back);
    assert_eq!(names(&kept), vec!["report.md"]);
    let (kept, _) = filter_files(&files, r"\.(md|txt)$");
    assert_eq!(names(&kept), vec!["report.md", "Report.txt"]);
}

#[test]
fn filter_falls_back_to_plain_text_on_invalid_regex() {
    let files = vec![item("a(REP.md", false), item("Report.txt", false), item("x(rep", false)];
    let (kept, fell_back) = filter_files(&files, "(rEp");
    assert!(fell_back);
    assert_eq!(names(&kept), vec!["a(REP.md", "x(rep"]);
}

#[test]
fn filter_law_keeps_exactly_the_passing_names() {
    let files = vec![item("aa", false), item("ab", true), item("ba", false)];
    let (kept, _) = filter_files(&files, "a$");
    assert_eq!(names(&kept), vec!["aa", "ba"]);
}

#[test]
fn sort_moves_files_into_category_targets() {
    let config = AppConfig::default();
    let entries = vec![
        file("/d/photo.JPG"),
        file("/d/notes.txt"),
        file("/d/README"),
        dir("/d/pics.png"),
        file("/d/tool.xyz"),
    ];
    let changes = generate_sort_changes("/d", &entries, &config);
    let got: Vec<_> = changes.iter().map(triple).collect();
    assert_eq!(
        got,
        vec![
            (
                "/d/photo.JPG".to_string(),
                "/d/Images/photo.JPG".to_string(),
                "Sort file /d/photo.JPG -> /d/Images/photo.JPG".to_string()
            ),
            (
                "/d/notes.txt".to_string(),
                "/d/Documents/notes.txt".to_string(),
                "Sort file /d/notes.txt -> /d/Documents/notes.txt".to_string()
            ),
            (
                "/d/tool.xyz".to_string(),
                "/d/Others/tool.xyz".to_string(),
                "Sort file /d/tool.xyz -> /d/Others/tool.xyz".to_string()
            ),
        ]
    );
    assert!(changes.iter().all(|c| c.kind == ChangeKind::Move));
}

#[test]
fn sort_uses_absolute_targets_and_needs_a_target() {
    let mut config = AppConfig::default();
    config.sort_targets.insert("Images".to_string(), "/srv/img".to_string());
    config.sort_targets.remove("Others");
    let entries = vec![file("/d/a.png"), file("/d/b.unknown")];
    let changes = generate_sort_changes("/d", &entries, &config);
    assert_eq!(changes.len(), 1);
    assert_eq!(changes[0].dst, "/srv/img/a.png");
}

#[test]
fn cleanup_skips_the_current_directory() {
    let config = AppConfig::default();
    let empty = vec!["/d/a".to_string(), "/d".to_string(), "/d/".to_string(), "/d/b/c".to_string()];
    let changes = generate_cleanup_changes("/d", &empty, &config);
    let got: Vec<_> = changes.iter().map(triple).collect();
    assert_eq!(
        got,
        vec![
            (
                "/d/a".to_string(),
                String::new(),
                "Delete empty target directory layout node: /d/a".to_string()
            ),
            (
                "/d/b/c".to_string(),
                String::new(),
                "Delete empty target directory layout node: /d/b/c".to_string()
            ),
        ]
    );
    assert!(changes.iter().all(|c| c.kind == ChangeKind::DeleteDir));
}

#[test]
fn rename_applies_prefix_and_case() {
    let entries = vec![file("/d/My File.TXT"), dir("/d/Sub"), file("/d/README"), file("/d/.bashrc")];
    let lower = batch_rename_dry_run(&entries, "x_", RenameCase::Lowercase).unwrap();
    let got: Vec<_> = lower.iter().map(triple).collect();
    assert_eq!(
        got,
        vec![
            (
                "/d/My File.TXT".to_string(),
                "/d/x_my file.TXT".to_string(),
                "Rename transformation: My File.TXT -> x_my file.TXT".to_string()
            ),
            (
                "/d/README".to_string(),
                "/d/x_readme".to_string(),
                "Rename transformation: README -> x_readme".to_string()
            ),
            (
                "/d/.bashrc".to_string(),
                "/d/x_.bashrc".to_string(),
                "Rename transformation: .bashrc -> x_.bashrc".to_string()
            ),
        ]
    );
    let upper = batch_rename_dry_run(&entries, "", RenameCase::Uppercase).unwrap();
    assert_eq!(upper[0].dst, "/d/MY FILE.TXT");
    let camel = batch_rename_dry_run(&entries, "p-", RenameCase::CamelCase).unwrap();
    assert_eq!(camel[0].dst, "/d/p-myFile.TXT");
    assert!(lower.iter().all(|c| c.kind == ChangeKind::Move));
}

#[test]
fn rename_refuses_a_file_without_a_name() {
    let entries = vec![file("/d/a.txt"), file("/d/..")];
    assert!(batch_rename_dry_run(&entries, "p", RenameCase::Lowercase).is_none());
    assert_eq!(batch_rename_dry_run(&[], "p", RenameCase::Lowercase).unwrap().len(), 0);
}

fn step_text(s: &UndoStep) -> String {
    match s {
        UndoStep::Rename(a, b) => format!("rename {} {}", a, b),
        UndoStep::CreateDir(p) => format!("mkdir {}", p),
    }
}

#[test]
fn undo_plan_reverses_changes_last_first() {
    let logs = vec![
        UndoLog { old_path: "/d/a".to_string(), new_path: "/d/x/a".to_string(), kind: UndoKind::Moved },
        UndoLog { old_path: "/d/e".to_string(), new_path: String::new(), kind: UndoKind::RemovedDir },
        UndoLog { old_path: "/d/b".to_string(), new_path: "/d/y/b".to_string(), kind: UndoKind::Moved },
    ];
    let steps: Vec<String> = undo_plan(&logs).iter().map(step_text).collect();
    assert_eq!(steps, vec!["rename /d/y/b /d/b", "mkdir /d/e", "rename /d/x/a /d/a"]);
}

#[test]
fn undoing_recorded_changes_restores_the_files() {
    // 0 stands for an empty directory.
    let mut fs: HashMap<String, u32> = HashMap::new();
    fs.insert("/a".to_string(), 1);
    fs.insert("/b".to_string(), 2);
    fs.insert("/c".to_string(), 3);
    fs.insert("/e".to_string(), 0);
    let before = fs.clone();
    let mut logs = Vec::new();
    for (from, to) in [("/a", "/x/a"), ("/x/a", "/y/a"), ("/e", ""), ("/b", "/x/b")] {
        let v = fs.remove(from).unwrap();
        if to.is_empty() {
            logs.push(UndoLog { old_path: from.to_string(), new_path: String::new(), kind: UndoKind::RemovedDir });
        } else {
            fs.insert(to.to_string(), v);
            logs.push(UndoLog { old_path: from.to_string(), new_path: to.to_string(), kind: UndoKind::Moved });
        }
    }
    for step in undo_plan(&logs) {
        match step {
            UndoStep::Rename(from, to) => {
                if let Some(v) = fs.remove(&from) {
                    fs.insert(to, v);
                }
            }
            UndoStep::CreateDir(p) => {
                fs.entry(p).or_insert(0);
            }
        }
    }
    assert_eq!(fs, before);
}

#[test]
fn names_sorted_ascending() {
    let sorted = sort_names(vec!["b".to_string(), "Zed".to_string(), "a".to_string(), "ab".to_string()]);
    assert_eq!(sorted, vec!["Zed", "a", "ab", "b"]);
    assert!(sort_names(vec![]).is_empty());
}
