//! Applying staged changes to the disk, one file operation at a time.
//!
//! `ChangeApplier` decides; the caller performs each `FsRequest` and answers
//! with an `FsReply`.  A move creates its target's directory when missing,
//! tries a rename, and falls back to copy-and-delete; a directory removal
//! happens only if the directory still exists.  Each move and removal
//! carried out is recorded for undo; failures are collected as messages and
//! the next change is taken up.

use vstd::prelude::*;
use crate::models::{ChangeKind, PendingChange, UndoKind, UndoLog};
use crate::paths::{parent_of, path_parent};
use crate::text::{owned, push_text};

verus! {

/// A file operation for the caller to perform.
pub enum FsRequest {
    /// Does this path exist?
    Exists(String),
    /// Create this directory and its missing parents.
    CreateDirAll(String),
    /// Rename the first path to the second.
    Rename(String, String),
    /// Copy the first file to the second path.
    Copy(String, String),
    /// Remove this file.
    RemoveFile(String),
    /// Remove this (empty) directory.
    RemoveDir(String),
    /// All changes have been taken up.
    Finished,
}

/// The view of a request.
pub ghost enum RequestView {
    Exists(Seq<char>),
    CreateDirAll(Seq<char>),
    Rename(Seq<char>, Seq<char>),
    Copy(Seq<char>, Seq<char>),
    RemoveFile(Seq<char>),
    RemoveDir(Seq<char>),
    Finished,
}

impl View for FsRequest {
    type V = RequestView;

    open spec fn view(&self) -> RequestView {
        match self {
            FsRequest::Exists(p) => RequestView::Exists(p@),
            FsRequest::CreateDirAll(p) => RequestView::CreateDirAll(p@),
            FsRequest::Rename(a, b) => RequestView::Rename(a@, b@),
            FsRequest::Copy(a, b) => RequestView::Copy(a@, b@),
            FsRequest::RemoveFile(p) => RequestView::RemoveFile(p@),
            FsRequest::RemoveDir(p) => RequestView::RemoveDir(p@),
            FsRequest::Finished => RequestView::Finished,
        }
    }
}

/// The caller's answer to a request.
pub enum FsReply {
    /// The answer to `Exists`.
    Exists(bool),
    /// The operation succeeded.
    Done,
    /// The operation failed; the error's text.
    Failed(String),
}

/// Which answer the applier is waiting for.
#[derive(Clone, Copy, Debug, PartialEq, Eq, Structural)]
pub enum Stage {
    /// Between changes.
    Next,
    /// Whether the target's parent directory exists.
    AwaitParent,
    /// The creation of the target's parent directory.
    AwaitCreateDir,
    /// The rename of the source to the target.
    AwaitRename,
    /// The copy of the source to the target.
    AwaitCopy,
    /// The removal of the copied source.
    AwaitRemoveFile,
    /// Whether the directory to remove still exists.
    AwaitSource,
    /// The removal of the directory.
    AwaitRemoveDir,
}

/// The state of applying a list of staged changes.
pub struct ChangeApplier {
    pub changes: Vec<PendingChange>,
    pub index: usize,
    pub stage: Stage,
    pub pending_dir: String,
    pub undo_logs: Vec<UndoLog>,
    pub errors: Vec<String>,
}

/// The texts of some messages.
pub open spec fn texts(v: Seq<String>) -> Seq<Seq<char>> {
    v.map_values(|m: String| m@)
}

/// Whether `reply` answers what `stage` waits for.
pub open spec fn reply_fits(stage: Stage, reply: FsReply) -> bool {
    match stage {
        Stage::Next => true,
        Stage::AwaitParent | Stage::AwaitSource => reply is Exists,
        _ => !(reply is Exists),
    }
}

/// `a` moved past its current change.
pub open spec fn moved_on(a: ChangeApplier) -> ChangeApplier {
    ChangeApplier { index: (a.index + 1) as usize, stage: Stage::Next, ..a }
}

/// `post` is `a` waiting on the first request of its current change, `req`;
/// or `Finished` when all changes are done.
pub open spec fn began(a: ChangeApplier, post: ChangeApplier, req: FsRequest) -> bool {
    if a.index >= a.changes@.len() {
        req@ == RequestView::Finished && post == (ChangeApplier { stage: Stage::Next, ..a })
    } else {
        let c = a.changes@[a.index as int];
        match c.kind {
            ChangeKind::Move => match path_parent(c.dst@) {
                Some(p) => {
                    &&& req@ == RequestView::Exists(p)
                    &&& post.pending_dir@ == p
                    &&& post == (ChangeApplier {
                        stage: Stage::AwaitParent,
                        pending_dir: post.pending_dir,
                        ..a
                    })
                },
                None => {
                    &&& req@ == RequestView::Rename(c.src@, c.dst@)
                    &&& post == (ChangeApplier { stage: Stage::AwaitRename, ..a })
                },
            },
            ChangeKind::DeleteDir => {
                &&& req@ == RequestView::Exists(c.src@)
                &&& post == (ChangeApplier { stage: Stage::AwaitSource, ..a })
            },
        }
    }
}

/// The undo record of a change that was carried out: a move, or the removal
/// of a directory.
pub open spec fn record_of(c: PendingChange) -> UndoLog {
    UndoLog {
        old_path: c.src,
        new_path: c.dst,
        kind: match c.kind {
            ChangeKind::Move => UndoKind::Moved,
            ChangeKind::DeleteDir => UndoKind::RemovedDir,
        },
    }
}

/// `post` is `a` past its current change, after recording it for undo.
pub open spec fn logged_and_moved_on(a: ChangeApplier, post: ChangeApplier, req: FsRequest) -> bool {
    let c = a.changes@[a.index as int];
    &&& post.undo_logs@ == a.undo_logs@.push(record_of(c))
    &&& began(moved_on(ChangeApplier { undo_logs: post.undo_logs, ..a }), post, req)
}

/// `post` is `a` past its current change, after recording the error `msg`.
pub open spec fn failed_and_moved_on(
    a: ChangeApplier,
    post: ChangeApplier,
    req: FsRequest,
    msg: Seq<char>,
) -> bool {
    &&& texts(post.errors@) == texts(a.errors@).push(msg)
    &&& began(moved_on(ChangeApplier { errors: post.errors, ..a }), post, req)
}

/// What answering `reply` does, from each stage.
pub open spec fn responded(pre: ChangeApplier, post: ChangeApplier, reply: FsReply, req: FsRequest) -> bool {
    let c = pre.changes@[pre.index as int];
    match pre.stage {
        Stage::Next => began(pre, post, req),
        Stage::AwaitParent => if reply == FsReply::Exists(true) {
            req@ == RequestView::Rename(c.src@, c.dst@) && post == (ChangeApplier {
                stage: Stage::AwaitRename,
                ..pre
            })
        } else {
            req@ == RequestView::CreateDirAll(pre.pending_dir@) && post == (ChangeApplier {
                stage: Stage::AwaitCreateDir,
                ..pre
            })
        },
        Stage::AwaitCreateDir => match reply {
            FsReply::Failed(e) => failed_and_moved_on(
                pre,
                post,
                req,
                "Could not create directory '"@ + pre.pending_dir@ + "': "@ + e@,
            ),
            _ => req@ == RequestView::Rename(c.src@, c.dst@) && post == (ChangeApplier {
                stage: Stage::AwaitRename,
                ..pre
            }),
        },
        Stage::AwaitRename => match reply {
            FsReply::Failed(_) => req@ == RequestView::Copy(c.src@, c.dst@) && post == (
            ChangeApplier { stage: Stage::AwaitCopy, ..pre }),
            _ => logged_and_moved_on(pre, post, req),
        },
        Stage::AwaitCopy => match reply {
            FsReply::Failed(_) => failed_and_moved_on(pre, post, req, "Failed to move: "@ + c.src@),
            _ => req@ == RequestView::RemoveFile(c.src@) && post == (ChangeApplier {
                stage: Stage::AwaitRemoveFile,
                ..pre
            }),
        },
        Stage::AwaitRemoveFile => logged_and_moved_on(pre, post, req),
        Stage::AwaitSource => if reply == FsReply::Exists(true) {
            req@ == RequestView::RemoveDir(c.src@) && post == (ChangeApplier {
                stage: Stage::AwaitRemoveDir,
                ..pre
            })
        } else {
            began(moved_on(pre), post, req)
        },
        Stage::AwaitRemoveDir => match reply {
            FsReply::Failed(e) => failed_and_moved_on(
                pre,
                post,
                req,
                "Could not remove '"@ + c.src@ + "': "@ + e@,
            ),
            _ => logged_and_moved_on(pre, post, req),
        },
    }
}

impl ChangeApplier {
    /// The position is within the list, and a change is under way only
    /// where there is one, of the kind its stage belongs to.
    pub open spec fn wf(&self) -> bool {
        &&& self.index <= self.changes@.len()
        &&& self.stage != Stage::Next ==> self.index < self.changes@.len()
        &&& (self.stage == Stage::AwaitSource || self.stage == Stage::AwaitRemoveDir) ==> self.changes@[self.index as int].kind == ChangeKind::DeleteDir
        &&& (self.stage != Stage::Next && self.stage != Stage::AwaitSource && self.stage
            != Stage::AwaitRemoveDir) ==> self.changes@[self.index as int].kind == ChangeKind::Move
    }

    /// Ready to apply `changes`, nothing done yet.
    pub fn new(changes: Vec<PendingChange>) -> (a: ChangeApplier)
        ensures
            a.wf(),
            a.changes == changes,
            a.index == 0,
            a.stage == Stage::Next,
            a.undo_logs@.len() == 0,
            a.errors@.len() == 0,
    {
        ChangeApplier {
            changes,
            index: 0,
            stage: Stage::Next,
            pending_dir: String::new(),
            undo_logs: Vec::new(),
            errors: Vec::new(),
        }
    }

    fn begin(&mut self) -> (req: FsRequest)
        requires
            old(self).wf(),
            old(self).stage == Stage::Next,
        ensures
            final(self).wf(),
            began(*old(self), *final(self), req),
    {
        if self.index >= self.changes.len() {
            return FsRequest::Finished;
        }
        let i = self.index;
        match self.changes[i].kind {
            ChangeKind::Move => {
                match parent_of(self.changes[i].dst.as_str()) {
                    Some(p) => {
                        self.pending_dir = p.clone();
                        self.stage = Stage::AwaitParent;
                        FsRequest::Exists(p)
                    },
                    None => {
                        self.stage = Stage::AwaitRename;
                        FsRequest::Rename(self.changes[i].src.clone(), self.changes[i].dst.clone())
                    },
                }
            },
            ChangeKind::DeleteDir => {
                self.stage = Stage::AwaitSource;
                FsRequest::Exists(self.changes[i].src.clone())
            },
        }
    }

    fn next_change(&mut self) -> (req: FsRequest)
        requires
            old(self).wf(),
            old(self).index < old(self).changes@.len(),
        ensures
            final(self).wf(),
            began(moved_on(*old(self)), *final(self), req),
    {
        let n = self.changes.len();
        assert(self.index < n);
        self.index = self.index + 1;
        self.stage = Stage::Next;
        self.begin()
    }

    fn log_and_next(&mut self) -> (req: FsRequest)
        requires
            old(self).wf(),
            old(self).index < old(self).changes@.len(),
        ensures
            final(self).wf(),
            logged_and_moved_on(*old(self), *final(self), req),
    {
        let i = self.index;
        let kind = match self.changes[i].kind {
            ChangeKind::Move => UndoKind::Moved,
            ChangeKind::DeleteDir => UndoKind::RemovedDir,
        };
        let log = UndoLog {
            old_path: self.changes[i].src.clone(),
            new_path: self.changes[i].dst.clone(),
            kind,
        };
        self.undo_logs.push(log);
        self.next_change()
    }

    fn fail_and_next(&mut self, msg: String) -> (req: FsRequest)
        requires
            old(self).wf(),
            old(self).index < old(self).changes@.len(),
        ensures
            final(self).wf(),
            failed_and_moved_on(*old(self), *final(self), req, msg@),
    {
        let ghost before = self.errors@;
        self.errors.push(msg);
        assert(texts(self.errors@) =~= texts(before).push(msg@));
        self.next_change()
    }

    /// Takes the caller's answer to the last request (any answer for the
    /// first call) and returns the next request.
    pub fn report(&mut self, reply: FsReply) -> (req: FsRequest)
        requires
            old(self).wf(),
            reply_fits(old(self).stage, reply),
        ensures
            final(self).wf(),
            responded(*old(self), *final(self), reply, req),
    {
        let i = self.index;
        match self.stage {
            Stage::Next => self.begin(),
            Stage::AwaitParent => {
                match reply {
                    FsReply::Exists(true) => {
                        self.stage = Stage::AwaitRename;
                        FsRequest::Rename(self.changes[i].src.clone(), self.changes[i].dst.clone())
                    },
                    _ => {
                        self.stage = Stage::AwaitCreateDir;
                        FsRequest::CreateDirAll(self.pending_dir.clone())
                    },
                }
            },
            Stage::AwaitCreateDir => {
                match reply {
                    FsReply::Failed(e) => {
                        let mut msg = owned("Could not create directory '");
                        push_text(&mut msg, self.pending_dir.as_str());
                        push_text(&mut msg, "': ");
                        push_text(&mut msg, e.as_str());
                        self.fail_and_next(msg)
                    },
                    _ => {
                        self.stage = Stage::AwaitRename;
                        FsRequest::Rename(self.changes[i].src.clone(), self.changes[i].dst.clone())
                    },
                }
            },
            Stage::AwaitRename => {
                match reply {
                    FsReply::Failed(_) => {
                        self.stage = Stage::AwaitCopy;
                        FsRequest::Copy(self.changes[i].src.clone(), self.changes[i].dst.clone())
                    },
                    _ => self.log_and_next(),
                }
            },
            Stage::AwaitCopy => {
                match reply {
                    FsReply::Failed(_) => {
                        let mut msg = owned("Failed to move: ");
                        push_text(&mut msg, self.changes[i].src.as_str());
                        self.fail_and_next(msg)
                    },
                    _ => {
                        self.stage = Stage::AwaitRemoveFile;
                        FsRequest::RemoveFile(self.changes[i].src.clone())
                    },
                }
            },
            Stage::AwaitRemoveFile => self.log_and_next(),
            Stage::AwaitSource => {
                match reply {
                    FsReply::Exists(true) => {
                        self.stage = Stage::AwaitRemoveDir;
                        FsRequest::RemoveDir(self.changes[i].src.clone())
                    },
                    _ => self.next_change(),
                }
            },
            Stage::AwaitRemoveDir => {
                match reply {
                    FsReply::Failed(e) => {
                        let mut msg = owned("Could not remove '");
                        push_text(&mut msg, self.changes[i].src.as_str());
                        push_text(&mut msg, "': ");
                        push_text(&mut msg, e.as_str());
                        self.fail_and_next(msg)
                    },
                    _ => self.log_and_next(),
                }
            },
        }
    }

    /// The changes carried out (moves and removals), for undo, and the errors met.
    pub fn finish(self) -> (r: (Vec<UndoLog>, Vec<String>))
        ensures
            r.0 == self.undo_logs,
            r.1 == self.errors,
    {
        (self.undo_logs, self.errors)
    }
}

/// Law: a step records at most one change for undo, and only the change
/// under way; a move is recorded once its rename (or copy) was done, and a
/// directory removal once the directory was removed.  The changes are never
/// altered and the position advances by at most one.
pub proof fn lemma_step_records_current_change(
    pre: ChangeApplier,
    post: ChangeApplier,
    reply: FsReply,
    req: FsRequest,
)
    requires
        pre.wf(),
        pre.changes@.len() <= usize::MAX,
        reply_fits(pre.stage, reply),
        responded(pre, post, reply, req),
    ensures
        post.changes == pre.changes,
        pre.index <= post.index <= pre.index + 1,
        post.undo_logs@ == pre.undo_logs@ || (pre.index < pre.changes@.len() && post.undo_logs@
            == pre.undo_logs@.push(record_of(pre.changes@[pre.index as int]))),
        (pre.stage == Stage::AwaitRemoveDir || pre.stage == Stage::AwaitRename) && !(reply is Failed)
            ==> post.undo_logs@ == pre.undo_logs@.push(record_of(pre.changes@[pre.index as int])),
        pre.stage == Stage::AwaitRemoveFile ==> post.undo_logs@ == pre.undo_logs@.push(
            record_of(pre.changes@[pre.index as int]),
        ),
        texts(post.errors@) == texts(pre.errors@) || (texts(post.errors@).len() == texts(
            pre.errors@,
        ).len() + 1 && texts(post.errors@).drop_last() == texts(pre.errors@)),
{
    if texts(post.errors@) != texts(pre.errors@) {
        let m = texts(post.errors@).last();
        assert(texts(post.errors@) == texts(pre.errors@).push(m));
        assert(texts(post.errors@).drop_last() =~= texts(pre.errors@));
    }
}

} // verus!
