//! The data the file manager works on.

use vstd::prelude::*;

verus! {

/// One entry of a directory listing.
pub struct FileItem {
    pub name: String,
    pub path: String,
    pub size: u64,
    pub is_dir: bool,
    pub permissions: String,
    pub modified: String,
}

impl Clone for FileItem {
    fn clone(&self) -> (r: Self)
        ensures
            r == *self,
    {
        FileItem {
            name: self.name.clone(),
            path: self.path.clone(),
            size: self.size,
            is_dir: self.is_dir,
            permissions: self.permissions.clone(),
            modified: self.modified.clone(),
        }
    }
}

/// One entry of a directory, as the sort and rename planners see it.
pub struct DirEntry {
    pub path: String,
    pub is_file: bool,
}

/// What an applied change did, as undo needs to know it.
#[derive(Clone, Copy, Debug, PartialEq, Eq, Structural)]
pub enum UndoKind {
    /// The file at `old_path` was moved to `new_path`.
    Moved,
    /// The empty directory at `old_path` was removed; `new_path` is empty.
    RemovedDir,
}

/// The view of an applied change, for undoing it.
pub ghost struct UndoView {
    pub old_path: Seq<char>,
    pub new_path: Seq<char>,
    pub kind: UndoKind,
}

/// A completed change: a move from `old_path` to `new_path`, or the removal
/// of the empty directory `old_path`.
pub struct UndoLog {
    pub old_path: String,
    pub new_path: String,
    pub kind: UndoKind,
}

impl View for UndoLog {
    type V = UndoView;

    open spec fn view(&self) -> UndoView {
        UndoView { old_path: self.old_path@, new_path: self.new_path@, kind: self.kind }
    }
}

/// The view of an undo step.
pub ghost enum StepView {
    Rename(Seq<char>, Seq<char>),
    CreateDir(Seq<char>),
}

/// One step of undoing: rename a file back, or create a removed directory again.
pub enum UndoStep {
    /// Rename the first path to the second, if the first still exists.
    Rename(String, String),
    /// Create this directory, if it does not exist.
    CreateDir(String),
}

impl View for UndoStep {
    type V = StepView;

    open spec fn view(&self) -> StepView {
        match self {
            UndoStep::Rename(a, b) => StepView::Rename(a@, b@),
            UndoStep::CreateDir(p) => StepView::CreateDir(p@),
        }
    }
}

#[derive(Clone, Copy, Debug, PartialEq, Eq, Structural)]
pub enum ChangeKind {
    Move,
    DeleteDir,
}

/// The view of a staged change.
pub ghost struct ChangeView {
    pub src: Seq<char>,
    pub dst: Seq<char>,
    pub description: Seq<char>,
    pub kind: ChangeKind,
}

/// A change staged for the dry-run preview.
pub struct PendingChange {
    pub src: String,
    pub dst: String,
    pub description: String,
    pub kind: ChangeKind,
}

impl View for PendingChange {
    type V = ChangeView;

    open spec fn view(&self) -> ChangeView {
        ChangeView {
            src: self.src@,
            dst: self.dst@,
            description: self.description@,
            kind: self.kind,
        }
    }
}

#[derive(Clone, Copy, Debug, PartialEq, Eq, Structural)]
pub enum AppMode {
    Explorer,
    UtilityMenu,
    FilterInput,
    DryRunPreview,
    Settings,
}

#[derive(Clone, Copy, Debug, PartialEq, Eq, Structural)]
pub enum UtilityTab {
    Sort,
    Rename,
    Clean,
    Duplicates,
    LargeFiles,
}

#[derive(Clone, Copy, Debug, PartialEq, Eq, Structural)]
pub enum RenameCase {
    Lowercase,
    Uppercase,
    CamelCase,
}

#[derive(Clone, Copy, Debug, PartialEq, Eq, Structural)]
pub enum InputPurpose {
    Filter,
    RenamePrefix,
    SettingsPath,
    EditExtensions,
    NewCategory,
}

#[derive(Clone, Copy, Debug, PartialEq, Eq, Structural)]
pub enum RightPanelView {
    FileMetadata,
    LargeFiles,
    Duplicates,
}

} // verus!
