//! The errors of a search and their printed messages.
use vstd::prelude::*;
use vstd::string::*;

use crate::text::{decimal, decimal_string, paint, painted, Color};

verus! {

/// Why a file or directory could not be used.
#[derive(Debug, Clone, Copy, PartialEq, Eq, Structural)]
pub enum FileProblem {
    FileNotFound,
    InvalidData,
    UnreadableInput,
    UnknownFileError,
    NotADirectory,
    DirectoryNotFound,
    DirectoryUnreadable,
}

/// The failure categories of reading a file, as the system reports them.
#[derive(Debug, Clone, Copy, PartialEq, Eq, Structural)]
pub enum ReadFailure {
    NotFound,
    InvalidData,
    InvalidInput,
    Other,
}

/// The failure categories of listing a directory.
#[derive(Debug, Clone, Copy, PartialEq, Eq, Structural)]
pub enum ListFailure {
    /// The path exists but is not a directory.
    NotADirectory,
    NotFound,
    Other,
}

/// Errors of argument parsing and of searching.
#[derive(Debug)]
pub enum GrepError {
    /// A file or directory (its path) could not be used.
    FileError(String, FileProblem),
    /// Wrong number of positional arguments: expected, received.
    ArgError(usize, usize),
    /// An option that is not recognised.
    OptionError(String),
    /// A path that is not valid UTF-8, shown lossily.
    PathError(String),
    /// Reading an entry of a directory failed.
    EntryError,
}

pub open spec fn problem_text(p: FileProblem) -> Seq<char> {
    match p {
        FileProblem::FileNotFound => "File not found"@,
        FileProblem::InvalidData => "Invalid data"@,
        FileProblem::UnreadableInput => "Unreadable input"@,
        FileProblem::UnknownFileError => "Unknown file error"@,
        FileProblem::NotADirectory => "Not a directory"@,
        FileProblem::DirectoryNotFound => "Directory not found"@,
        FileProblem::DirectoryUnreadable => "Error while getting directory contents"@,
    }
}

/// The problem reported for a failed file read.
pub open spec fn read_problem(f: ReadFailure) -> FileProblem {
    match f {
        ReadFailure::NotFound => FileProblem::FileNotFound,
        ReadFailure::InvalidData => FileProblem::InvalidData,
        ReadFailure::InvalidInput => FileProblem::UnreadableInput,
        ReadFailure::Other => FileProblem::UnknownFileError,
    }
}

/// The problem reported for a failed directory listing.
pub open spec fn list_problem(f: ListFailure) -> FileProblem {
    match f {
        ListFailure::NotADirectory => FileProblem::NotADirectory,
        ListFailure::NotFound => FileProblem::DirectoryNotFound,
        ListFailure::Other => FileProblem::DirectoryUnreadable,
    }
}

/// The printed message of an error.
pub open spec fn message_spec(e: GrepError, colored: bool) -> Seq<char> {
    match e {
        GrepError::FileError(path, p) => "zgrep: FILE ERROR: "@ + painted(path@, Color::Red, colored)
            + " : "@ + problem_text(p),
        GrepError::ArgError(expected, received) => "zgrep: ARGUMENT ERROR: Expected "@ + decimal(
            expected as nat,
        ) + " but received "@ + decimal(received as nat) + " arguments"@,
        GrepError::OptionError(t) => "zgrep: OPTION ERROR: Unknown option: "@ + t@,
        GrepError::PathError(p) => "zgrep: PATH ERROR: Path is not valid UTF-8: \""@ + p@ + "\""@,
        GrepError::EntryError => "zgrep: DIRECTORY ENTRY ERROR"@,
    }
}

impl FileProblem {
    /// The reason as printed.
    pub fn text(&self) -> (r: &'static str)
        ensures
            r@ == problem_text(*self),
    {
        match self {
            FileProblem::FileNotFound => "File not found",
            FileProblem::InvalidData => "Invalid data",
            FileProblem::UnreadableInput => "Unreadable input",
            FileProblem::UnknownFileError => "Unknown file error",
            FileProblem::NotADirectory => "Not a directory",
            FileProblem::DirectoryNotFound => "Directory not found",
            FileProblem::DirectoryUnreadable => "Error while getting directory contents",
        }
    }
}

/// The error for a file at `path` that could not be read.
pub fn read_error(path: String, f: ReadFailure) -> (r: GrepError)
    ensures
        r == GrepError::FileError(path, read_problem(f)),
{
    let p = match f {
        ReadFailure::NotFound => FileProblem::FileNotFound,
        ReadFailure::InvalidData => FileProblem::InvalidData,
        ReadFailure::InvalidInput => FileProblem::UnreadableInput,
        ReadFailure::Other => FileProblem::UnknownFileError,
    };
    GrepError::FileError(path, p)
}

/// The error for a directory at `path` that could not be listed.
pub fn list_error(path: String, f: ListFailure) -> (r: GrepError)
    ensures
        r == GrepError::FileError(path, list_problem(f)),
{
    let p = match f {
        ListFailure::NotADirectory => FileProblem::NotADirectory,
        ListFailure::NotFound => FileProblem::DirectoryNotFound,
        ListFailure::Other => FileProblem::DirectoryUnreadable,
    };
    GrepError::FileError(path, p)
}

impl GrepError {
    /// The message printed for this error; the path of a file error is
    /// painted red when `colored` holds.
    pub fn message(&self, colored: bool) -> (r: String)
        ensures
            r@ == message_spec(*self, colored),
    {
        match self {
            GrepError::FileError(path, p) => {
                let mut out = String::from_str("zgrep: FILE ERROR: ");
                let painted_path = paint(path, Color::Red, colored);
                out.append(painted_path.as_str());
                out.append(" : ");
                out.append(p.text());
                out
            },
            GrepError::ArgError(expected, received) => {
                let mut out = String::from_str("zgrep: ARGUMENT ERROR: Expected ");
                let e = decimal_string(*expected);
                out.append(e.as_str());
                out.append(" but received ");
                let n = decimal_string(*received);
                out.append(n.as_str());
                out.append(" arguments");
                out
            },
            GrepError::OptionError(t) => {
                let mut out = String::from_str("zgrep: OPTION ERROR: Unknown option: ");
                out.append(t.as_str());
                out
            },
            GrepError::PathError(p) => {
                let mut out = String::from_str("zgrep: PATH ERROR: Path is not valid UTF-8: \"");
                out.append(p.as_str());
                out.append("\"");
                out
            },
            GrepError::EntryError => String::from_str("zgrep: DIRECTORY ENTRY ERROR"),
        }
    }
}

} // verus!
