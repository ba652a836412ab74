use atrus::apply::{ChangeApplier, FsReply, FsRequest, Stage};
use atrus::models::{ChangeKind, PendingChange, UndoKind, UndoLog};
use std::collections::HashSet;

/// A pretend disk: the paths that exist, and the operations that fail.
struct Disk {
    paths: HashSet<String>,
    failing: HashSet<String>,
    log: Vec<String>,
}

impl Disk {
    fn new(paths: &[&str], failing: &[&str]) -> Disk {
        Disk {
            paths: paths.iter().map(|p| p.to_string()).collect(),
            failing: failing.iter().map(|p| p.to_string()).collect(),
            log: Vec::new(),
        }
    }

    fn run(&mut self, op: String) -> FsReply {
        let failed = self.failing.contains(&op);
        self.log.push(op);
        if failed {
            FsReply::Failed("denied".to_string())
        } else {
            FsReply::Done
        }
    }

    fn answer(&mut self, req: &FsRequest) -> Option<FsReply> {
        Some(match req {
            FsRequest::Finished => return None,
            FsRequest::Exists(p) => {
                self.log.push(format!("exists {}", p));
                FsReply::Exists(self.paths.contains(p))
            }
            FsRequest::CreateDirAll(p) => {
                let r = self.run(format!("mkdir {}", p));
                if matches!(r, FsReply::Done) {
                    self.paths.insert(p.clone());
                }
                r
            }
            FsRequest::Rename(a, b) => {
                let r = self.run(format!("rename {} {}", a, b));
                if matches!(r, FsReply::Done) {
                    self.paths.remove(a);
                    self.paths.insert(b.clone());
                }
                r
            }
            FsRequest::Copy(a, b) => {
                let r = self.run(format!("copy {} {}", a, b));
                if matches!(r, FsReply::Done) {
                    self.paths.insert(b.clone());
                }
                r
            }
            FsRequest::RemoveFile(p) => {
                let r = self.run(format!("rm {}", p));
                if matches!(r, FsReply::Done) {
                    self.paths.remove(p);
                }
                r
            }
            FsRequest::RemoveDir(p) => {
                let r = self.run(format!("rmdir {}", p));
                if matches!(r, FsReply::Done) {
                    self.paths.remove(p);
                }
                r
            }
        })
    }
}

fn mv(src: &str, dst: &str) -> PendingChange {
    PendingChange {
        src: src.to_string(),
        dst: dst.to_string(),
        description: String::new(),
        kind: ChangeKind::Move,
    }
}

fn rmdir(p: &str) -> PendingChange {
    PendingChange {
        src: p.to_string(),
        dst: String::new(),
        description: String::new(),
        kind: ChangeKind::DeleteDir,
    }
}

fn apply(changes: Vec<PendingChange>, disk: &mut Disk) -> (Vec<UndoLog>, Vec<String>) {
    let mut applier = ChangeApplier::new(changes);
    let mut req = applier.report(FsReply::Done);
    while let Some(reply) = disk.answer(&req) {
        let logs_before = applier.undo_logs.len();
        let index_before = applier.index;
        req = applier.report(reply);
        assert!(applier.undo_logs.len() <= logs_before + 1);
        assert!(applier.index == index_before || applier.index == index_before + 1);
    }
    assert_eq!(applier.stage, Stage::Next);
    applier.finish()
}

fn pairs(logs: &[UndoLog]) -> Vec<(String, String)> {
    assert!(logs.iter().all(|l| l.kind == UndoKind::Moved));
    logs.iter().map(|l| (l.old_path.clone(), l.new_path.clone())).collect()
}

#[test]
fn a_move_into_an_existing_directory_is_a_rename() {
    let mut disk = Disk::new(&["/d/a", "/d/x"], &[]);
    let (logs, errors) = apply(vec![mv("/d/a", "/d/x/a")], &mut disk);
    assert_eq!(pairs(&logs), vec![("/d/a".to_string(), "/d/x/a".to_string())]);
    assert!(errors.is_empty());
    assert_eq!(disk.log, vec!["exists /d/x", "rename /d/a /d/x/a"]);
}

#[test]
fn a_missing_target_directory_is_created_first() {
    let mut disk = Disk::new(&["/d/a"], &[]);
    let (logs, errors) = apply(vec![mv("/d/a", "/d/new/sub/a")], &mut disk);
    assert_eq!(logs.len(), 1);
    assert!(errors.is_empty());
    assert_eq!(disk.log, vec!["exists /d/new/sub", "mkdir /d/new/sub", "rename /d/a /d/new/sub/a"]);
}

#[test]
fn a_failed_directory_creation_skips_the_move() {
    let mut disk = Disk::new(&["/d/a", "/d/b", "/e"], &["mkdir /x"]);
    let (logs, errors) = apply(vec![mv("/d/a", "/x/a"), mv("/d/b", "/e/b")], &mut disk);
    assert_eq!(errors, vec!["Could not create directory '/x': denied"]);
    assert_eq!(pairs(&logs), vec![("/d/b".to_string(), "/e/b".to_string())]);
    assert!(disk.paths.contains("/d/a"));
}

#[test]
fn a_failed_rename_falls_back_to_copy_and_delete() {
    let mut disk = Disk::new(&["/d/a", "/e"], &["rename /d/a /e/a"]);
    let (logs, errors) = apply(vec![mv("/d/a", "/e/a")], &mut disk);
    assert!(errors.is_empty());
    assert_eq!(logs.len(), 1);
    assert_eq!(disk.log, vec!["exists /e", "rename /d/a /e/a", "copy /d/a /e/a", "rm /d/a"]);
    let mut disk = Disk::new(&["/d/a", "/e"], &["rename /d/a /e/a", "rm /d/a"]);
    let (logs, errors) = apply(vec![mv("/d/a", "/e/a")], &mut disk);
    assert!(errors.is_empty());
    assert_eq!(logs.len(), 1);
}

#[test]
fn a_failed_copy_is_reported() {
    let mut disk = Disk::new(&["/d/a", "/e"], &["rename /d/a /e/a", "copy /d/a /e/a"]);
    let (logs, errors) = apply(vec![mv("/d/a", "/e/a")], &mut disk);
    assert!(logs.is_empty());
    assert_eq!(errors, vec!["Failed to move: /d/a"]);
}

#[test]
fn directories_are_removed_only_if_they_exist() {
    let mut disk = Disk::new(&["/d/e1", "/d/e3"], &["rmdir /d/e3"]);
    let (logs, errors) = apply(vec![rmdir("/d/e1"), rmdir("/d/e2"), rmdir("/d/e3")], &mut disk);
    assert_eq!(logs.len(), 1);
    assert_eq!((logs[0].old_path.as_str(), logs[0].kind), ("/d/e1", UndoKind::RemovedDir));
    assert_eq!(errors, vec!["Could not remove '/d/e3': denied"]);
    assert_eq!(
        disk.log,
        vec!["exists /d/e1", "rmdir /d/e1", "exists /d/e2", "exists /d/e3", "rmdir /d/e3"]
    );
}

#[test]
fn nothing_to_apply_finishes_at_once() {
    let mut applier = ChangeApplier::new(vec![]);
    assert!(matches!(applier.report(FsReply::Done), FsRequest::Finished));
    let (logs, errors) = applier.finish();
    assert!(logs.is_empty() && errors.is_empty());
}

#[test]
fn a_clean_up_is_undone_by_creating_the_directories_again() {
    let mut disk = Disk::new(&["/d/e1", "/d/e2", "/d/a", "/d/x"], &[]);
    let before = disk.paths.clone();
    let (logs, errors) = apply(vec![rmdir("/d/e1"), mv("/d/a", "/d/x/a"), rmdir("/d/e2")], &mut disk);
    assert!(errors.is_empty());
    assert_eq!(logs.len(), 3);
    assert!(!disk.paths.contains("/d/e1") && !disk.paths.contains("/d/e2"));
    for step in atrus::engine::undo_plan(&logs) {
        match step {
            atrus::models::UndoStep::Rename(a, b) => {
                if disk.paths.remove(&a) {
                    disk.paths.insert(b);
                }
            }
            atrus::models::UndoStep::CreateDir(p) => {
                disk.paths.insert(p);
            }
        }
    }
    assert_eq!(disk.paths, before);
}
