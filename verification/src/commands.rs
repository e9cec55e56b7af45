//! The four commands. Each is a function from what the file system has
//! reported so far to the next step: a question for the host to put to the
//! file system, or the command's result. The host answers the question,
//! records the answer and calls again; no call remembers another.

use vstd::prelude::*;
use crate::document::{
    DirChild, DirectoryEntry, EntryView, FileData, FileDataView, FileInfo, FileInfoView,
};
use crate::error::{CommandError, ErrorModel};
use crate::listing::{list_markdown_files, listing_of};
use crate::path::{display_name, display_name_of};
use crate::text::{count_lines, line_count};

verus! {

/// The reason given where a listing is asked of something that exists and is
/// no directory.
pub const NOT_A_DIRECTORY: &'static str = "Not a directory";

/// One question to the file system, with all that the host needs to put it.
#[derive(Debug, Clone, Copy, PartialEq, Eq)]
pub enum FsQuery<'a> {
    /// Does anything exist at `path`?
    Exists { path: &'a str },
    /// Is `path` a directory?
    IsDirectory { path: &'a str },
    /// The whole content of `path`, as text.
    ReadText { path: &'a str },
    /// The size of `path` in bytes, from its metadata.
    Size { path: &'a str },
    /// The direct children of the directory `path`.
    Children { path: &'a str },
    /// Make `content` the whole content of `path`, creating it if need be.
    WriteText { path: &'a str, content: &'a str },
}

/// An `FsQuery` as a value of specifications.
pub enum QueryModel {
    Exists { path: Seq<char> },
    IsDirectory { path: Seq<char> },
    ReadText { path: Seq<char> },
    Size { path: Seq<char> },
    Children { path: Seq<char> },
    WriteText { path: Seq<char>, content: Seq<char> },
}

impl<'a> View for FsQuery<'a> {
    type V = QueryModel;

    open spec fn view(&self) -> QueryModel {
        match self {
            FsQuery::Exists { path } => QueryModel::Exists { path: path@ },
            FsQuery::IsDirectory { path } => QueryModel::IsDirectory { path: path@ },
            FsQuery::ReadText { path } => QueryModel::ReadText { path: path@ },
            FsQuery::Size { path } => QueryModel::Size { path: path@ },
            FsQuery::Children { path } => QueryModel::Children { path: path@ },
            FsQuery::WriteText { path, content } => QueryModel::WriteText {
                path: path@,
                content: content@,
            },
        }
    }
}

/// What a command does next.
#[derive(Debug, Clone, PartialEq, Eq)]
pub enum Step<'a, T> {
    /// The host puts this question, records the answer and calls again.
    Ask(FsQuery<'a>),
    /// The command has succeeded with this value.
    Done(T),
}

/// A `Step` as a value of specifications.
pub enum StepModel<V> {
    Ask(QueryModel),
    Done(V),
}

/// What a call of a command returned, as a value of specifications.
pub open spec fn outcome<'a, T: DeepView>(result: Result<Step<'a, T>, CommandError>) -> Result<
    StepModel<T::V>,
    ErrorModel,
> {
    match result {
        Ok(Step::Ask(query)) => Ok(StepModel::Ask(query@)),
        Ok(Step::Done(value)) => Ok(StepModel::Done(value.deep_view())),
        Err(error) => Err(error@),
    }
}

/// What the file system has reported during one command. A field is `None`
/// until the host has put the question that it answers; a failed operation
/// is recorded with the reason that the file system gave.
#[derive(Debug, Clone, PartialEq, Eq)]
pub struct Observations {
    pub exists: Option<bool>,
    pub is_directory: Option<bool>,
    pub text: Option<Result<String, String>>,
    pub size: Option<Result<u64, String>>,
    pub children: Option<Result<Vec<DirChild>, String>>,
    pub written: Option<Result<(), String>>,
}

impl Observations {
    /// Nothing reported yet.
    pub open spec fn is_blank(self) -> bool {
        &&& self.exists is None
        &&& self.is_directory is None
        &&& self.text is None
        &&& self.size is None
        &&& self.children is None
        &&& self.written is None
    }

    /// The observations at the start of a command.
    pub fn new() -> (seen: Observations)
        ensures
            seen.is_blank(),
    {
        Observations {
            exists: None,
            is_directory: None,
            text: None,
            size: None,
            children: None,
            written: None,
        }
    }
}

/// Reading `path`: first whether it exists, then its content, then its size.
/// A path that does not exist is not found, whatever else was reported; a
/// failed read or a failed look at the metadata is a read error with the
/// file system's reason; and the document holds the content as it was read.
pub open spec fn read_file_step(path: Seq<char>, seen: Observations) -> Result<
    StepModel<FileDataView>,
    ErrorModel,
> {
    match seen.exists {
        None => Ok(StepModel::Ask(QueryModel::Exists { path })),
        Some(false) => Err(ErrorModel::FileNotFound(path)),
        Some(true) => match seen.text {
            None => Ok(StepModel::Ask(QueryModel::ReadText { path })),
            Some(Err(reason)) => Err(ErrorModel::ReadError(reason@)),
            Some(Ok(text)) => match seen.size {
                None => Ok(StepModel::Ask(QueryModel::Size { path })),
                Some(Err(reason)) => Err(ErrorModel::ReadError(reason@)),
                Some(Ok(size)) => Ok(
                    StepModel::Done(
                        FileDataView {
                            path,
                            name: display_name(path),
                            content: text@,
                            size: size as nat,
                            line_count: line_count(text@),
                        },
                    ),
                ),
            },
        },
    }
}

/// The status of `path`: first whether it exists, then its size. The content
/// is never asked for.
pub open spec fn get_file_info_step(path: Seq<char>, seen: Observations) -> Result<
    StepModel<FileInfoView>,
    ErrorModel,
> {
    match seen.exists {
        None => Ok(StepModel::Ask(QueryModel::Exists { path })),
        Some(false) => Err(ErrorModel::FileNotFound(path)),
        Some(true) => match seen.size {
            None => Ok(StepModel::Ask(QueryModel::Size { path })),
            Some(Err(reason)) => Err(ErrorModel::ReadError(reason@)),
            Some(Ok(size)) => Ok(
                StepModel::Done(
                    FileInfoView { path, name: display_name(path), size: size as nat },
                ),
            ),
        },
    }
}

/// Saving `content` to `path`: the write is asked for without a look at what
/// is there, and its failure is a write error with the file system's reason.
pub open spec fn save_file_step(path: Seq<char>, content: Seq<char>, seen: Observations) -> Result<
    StepModel<()>,
    ErrorModel,
> {
    match seen.written {
        None => Ok(StepModel::Ask(QueryModel::WriteText { path, content })),
        Some(Err(reason)) => Err(ErrorModel::WriteError(reason@)),
        Some(Ok(_)) => Ok(StepModel::Done(())),
    }
}

/// Listing the markdown files of `directory`: first whether it exists, then
/// whether it is a directory, then its direct children. What is missing is not
/// found; what is no directory, or cannot be enumerated, is a read error.
/// Subdirectories are not entered.
pub open spec fn list_directory_files_step(directory: Seq<char>, seen: Observations) -> Result<
    StepModel<Seq<EntryView>>,
    ErrorModel,
> {
    match seen.exists {
        None => Ok(StepModel::Ask(QueryModel::Exists { path: directory })),
        Some(false) => Err(ErrorModel::FileNotFound(directory)),
        Some(true) => match seen.is_directory {
            None => Ok(StepModel::Ask(QueryModel::IsDirectory { path: directory })),
            Some(false) => Err(ErrorModel::ReadError(NOT_A_DIRECTORY@)),
            Some(true) => match seen.children {
                None => Ok(StepModel::Ask(QueryModel::Children { path: directory })),
                Some(Err(reason)) => Err(ErrorModel::ReadError(reason@)),
                Some(Ok(children)) => Ok(StepModel::Done(listing_of(children.deep_view()))),
            },
        },
    }
}

/// The next step of reading the document at `path`.
pub fn read_file<'a>(path: &'a str, seen: &Observations) -> (step: Result<
    Step<'a, FileData>,
    CommandError,
>)
    ensures
        outcome(step) == read_file_step(path@, *seen),
{
    match seen.exists {
        None => { return Ok(Step::Ask(FsQuery::Exists { path })); },
        Some(false) => { return Err(CommandError::FileNotFound(path.to_owned())); },
        Some(true) => {},
    }
    let content = match &seen.text {
        None => { return Ok(Step::Ask(FsQuery::ReadText { path })); },
        Some(Err(reason)) => { return Err(CommandError::ReadError(reason.clone())); },
        Some(Ok(text)) => text.clone(),
    };
    let size = match &seen.size {
        None => { return Ok(Step::Ask(FsQuery::Size { path })); },
        Some(Err(reason)) => { return Err(CommandError::ReadError(reason.clone())); },
        Some(Ok(size)) => *size,
    };
    let name = display_name_of(path);
    let line_count = count_lines(content.as_str());
    Ok(Step::Done(FileData { path: path.to_owned(), name, content, size, line_count }))
}

/// The next step of looking up the status of `path`.
pub fn get_file_info<'a>(path: &'a str, seen: &Observations) -> (step: Result<
    Step<'a, FileInfo>,
    CommandError,
>)
    ensures
        outcome(step) == get_file_info_step(path@, *seen),
{
    match seen.exists {
        None => { return Ok(Step::Ask(FsQuery::Exists { path })); },
        Some(false) => { return Err(CommandError::FileNotFound(path.to_owned())); },
        Some(true) => {},
    }
    let size = match &seen.size {
        None => { return Ok(Step::Ask(FsQuery::Size { path })); },
        Some(Err(reason)) => { return Err(CommandError::ReadError(reason.clone())); },
        Some(Ok(size)) => *size,
    };
    let name = display_name_of(path);
    Ok(Step::Done(FileInfo { path: path.to_owned(), name, size }))
}

/// The next step of saving `content` to `path`.
pub fn save_file<'a>(path: &'a str, content: &'a str, seen: &Observations) -> (step: Result<
    Step<'a, ()>,
    CommandError,
>)
    ensures
        outcome(step) == save_file_step(path@, content@, *seen),
{
    match &seen.written {
        None => Ok(Step::Ask(FsQuery::WriteText { path, content })),
        Some(Err(reason)) => Err(CommandError::WriteError(reason.clone())),
        Some(Ok(_)) => Ok(Step::Done(())),
    }
}

/// The next step of listing the markdown files of `directory`.
pub fn list_directory_files<'a>(directory: &'a str, seen: &Observations) -> (step: Result<
    Step<'a, Vec<DirectoryEntry>>,
    CommandError,
>)
    ensures
        outcome(step) == list_directory_files_step(directory@, *seen),
{
    match seen.exists {
        None => { return Ok(Step::Ask(FsQuery::Exists { path: directory })); },
        Some(false) => { return Err(CommandError::FileNotFound(directory.to_owned())); },
        Some(true) => {},
    }
    match seen.is_directory {
        None => { return Ok(Step::Ask(FsQuery::IsDirectory { path: directory })); },
        Some(false) => { return Err(CommandError::ReadError(NOT_A_DIRECTORY.to_owned())); },
        Some(true) => {},
    }
    match &seen.children {
        None => Ok(Step::Ask(FsQuery::Children { path: directory })),
        Some(Err(reason)) => Err(CommandError::ReadError(reason.clone())),
        Some(Ok(children)) => Ok(Step::Done(list_markdown_files(children))),
    }
}

/// A path that does not exist is not found, by every command that looks at
/// it and whatever else was reported of it: never another failure, never a
/// result, never a further question.
pub proof fn lemma_missing_path_is_not_found(path: Seq<char>, seen: Observations)
    requires
        seen.exists == Some(false),
    ensures
        read_file_step(path, seen) == Err::<StepModel<FileDataView>, ErrorModel>(
            ErrorModel::FileNotFound(path),
        ),
        get_file_info_step(path, seen) == Err::<StepModel<FileInfoView>, ErrorModel>(
            ErrorModel::FileNotFound(path),
        ),
        list_directory_files_step(path, seen) == Err::<StepModel<Seq<EntryView>>, ErrorModel>(
            ErrorModel::FileNotFound(path),
        ),
{
}

/// The status of a file is made from its existence and its size alone: the
/// command never asks for content, and what was reported of the content does
/// not bear on its result.
pub proof fn lemma_status_never_reads_content(path: Seq<char>, seen: Observations)
    ensures
        match get_file_info_step(path, seen) {
            Ok(StepModel::Ask(query)) => query == (QueryModel::Exists { path }) || query == (
            QueryModel::Size { path }),
            _ => true,
        },
        get_file_info_step(path, seen) == get_file_info_step(
            path,
            Observations { text: None, ..seen },
        ),
{
}

/// Saving the content of a document as it was read asks the file system to
/// write, to the same path, exactly the text that it delivered.
pub proof fn lemma_saving_what_was_read(path: Seq<char>, seen: Observations, fresh: Observations)
    requires
        read_file_step(path, seen) is Ok,
        read_file_step(path, seen)->Ok_0 is Done,
        fresh.written is None,
    ensures
        seen.text is Some,
        seen.text->0 is Ok,
        save_file_step(path, read_file_step(path, seen)->Ok_0->Done_0.content, fresh) == Ok::<
            StepModel<()>,
            ErrorModel,
        >(StepModel::Ask(QueryModel::WriteText { path, content: seen.text->0->Ok_0@ })),
{
}

/// A save succeeds exactly when the write did, and it never asks what is at
/// the path before it writes.
pub proof fn lemma_save_follows_the_write(path: Seq<char>, content: Seq<char>, seen: Observations)
    ensures
        save_file_step(path, content, seen) == Ok::<StepModel<()>, ErrorModel>(StepModel::Done(()))
            <==> seen.written is Some && seen.written->0 is Ok,
        save_file_step(path, content, seen) is Err <==> seen.written is Some
            && seen.written->0 is Err,
        save_file_step(path, content, seen) is Err ==> save_file_step(path, content, seen)->Err_0
            is WriteError,
{
}

} // verus!
