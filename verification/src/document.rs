//! The values that the commands hand back, and what a host reports of a
//! directory's children.

use vstd::prelude::*;

verus! {

/// A document as it was read: made anew by every read and owned by whoever
/// asked for it.
#[derive(Debug, Clone, PartialEq, Eq)]
pub struct FileData {
    pub path: String,
    pub name: String,
    pub content: String,
    pub size: u64,
    pub line_count: usize,
}

/// A `FileData` as a value of specifications.
pub struct FileDataView {
    pub path: Seq<char>,
    pub name: Seq<char>,
    pub content: Seq<char>,
    pub size: nat,
    pub line_count: nat,
}

impl View for FileData {
    type V = FileDataView;

    open spec fn view(&self) -> FileDataView {
        FileDataView {
            path: self.path@,
            name: self.name@,
            content: self.content@,
            size: self.size as nat,
            line_count: self.line_count as nat,
        }
    }
}

impl DeepView for FileData {
    type V = FileDataView;

    open spec fn deep_view(&self) -> FileDataView {
        self@
    }
}

/// What the status display needs of a file: made without reading its content.
#[derive(Debug, Clone, PartialEq, Eq)]
pub struct FileInfo {
    pub path: String,
    pub name: String,
    pub size: u64,
}

/// A `FileInfo` as a value of specifications.
pub struct FileInfoView {
    pub path: Seq<char>,
    pub name: Seq<char>,
    pub size: nat,
}

impl View for FileInfo {
    type V = FileInfoView;

    open spec fn view(&self) -> FileInfoView {
        FileInfoView { path: self.path@, name: self.name@, size: self.size as nat }
    }
}

impl DeepView for FileInfo {
    type V = FileInfoView;

    open spec fn deep_view(&self) -> FileInfoView {
        self@
    }
}

/// One file found by a listing.
#[derive(Debug, Clone, PartialEq, Eq)]
pub struct DirectoryEntry {
    pub name: String,
    pub path: String,
}

/// A `DirectoryEntry` as a value of specifications.
pub struct EntryView {
    pub name: Seq<char>,
    pub path: Seq<char>,
}

impl View for DirectoryEntry {
    type V = EntryView;

    open spec fn view(&self) -> EntryView {
        EntryView { name: self.name@, path: self.path@ }
    }
}

impl DeepView for DirectoryEntry {
    type V = EntryView;

    open spec fn deep_view(&self) -> EntryView {
        self@
    }
}

/// What a host reports of one direct child of a directory: its path, and
/// whether it is a regular file.
#[derive(Debug, Clone, PartialEq, Eq)]
pub struct DirChild {
    pub path: String,
    pub is_file: bool,
}

/// A `DirChild` as a value of specifications.
pub struct ChildView {
    pub path: Seq<char>,
    pub is_file: bool,
}

impl View for DirChild {
    type V = ChildView;

    open spec fn view(&self) -> ChildView {
        ChildView { path: self.path@, is_file: self.is_file }
    }
}

impl DeepView for DirChild {
    type V = ChildView;

    open spec fn deep_view(&self) -> ChildView {
        self@
    }
}

} // verus!
