//! What can go wrong while planning or moving.

use vstd::prelude::*;
use vstd::string::*;

verus! {

/// Why planning or moving stopped. Every variant names the path concerned.
#[derive(Debug, PartialEq, Eq)]
pub enum SortError {
    /// A directory that has to exist does not.
    DirectoryNotFound(String),
    /// The source directory could not be listed.
    DirectoryRead(String),
    /// A folder for an extension could not be created.
    DirectoryCreate(String),
    /// The destination already holds a file of that name, and renaming is off.
    Collision(String),
    /// A file could not be moved.
    Move(String),
    /// The path names no file.
    InvalidPath(String),
}

/// A `SortError` with its path as a sequence of characters.
pub ghost enum Failure {
    DirectoryNotFound(Seq<char>),
    DirectoryRead(Seq<char>),
    DirectoryCreate(Seq<char>),
    Collision(Seq<char>),
    Move(Seq<char>),
    InvalidPath(Seq<char>),
}

impl View for SortError {
    type V = Failure;

    open spec fn view(&self) -> Failure {
        match self {
            SortError::DirectoryNotFound(p) => Failure::DirectoryNotFound(p@),
            SortError::DirectoryRead(p) => Failure::DirectoryRead(p@),
            SortError::DirectoryCreate(p) => Failure::DirectoryCreate(p@),
            SortError::Collision(p) => Failure::Collision(p@),
            SortError::Move(p) => Failure::Move(p@),
            SortError::InvalidPath(p) => Failure::InvalidPath(p@),
        }
    }
}

impl Failure {
    /// The path that the failure names.
    pub open spec fn path(self) -> Seq<char> {
        match self {
            Failure::DirectoryNotFound(p) => p,
            Failure::DirectoryRead(p) => p,
            Failure::DirectoryCreate(p) => p,
            Failure::Collision(p) => p,
            Failure::Move(p) => p,
            Failure::InvalidPath(p) => p,
        }
    }

    /// The failure in words.
    pub open spec fn text(self) -> Seq<char> {
        match self {
            Failure::DirectoryNotFound(p) => "Dir "@ + p + " not exists"@,
            Failure::DirectoryRead(p) => "Error reading directory: "@ + p,
            Failure::DirectoryCreate(p) => "Error creating directory: "@ + p,
            Failure::Collision(p) => "The file already exists in the target directory: "@ + p,
            Failure::Move(p) => "Error moving file: "@ + p,
            Failure::InvalidPath(p) => "Invalid source file path: "@ + p,
        }
    }
}

impl SortError {
    /// The path that the error names.
    pub fn path(&self) -> (path: &String)
        ensures
            path@ == self@.path(),
    {
        match self {
            SortError::DirectoryNotFound(p) => p,
            SortError::DirectoryRead(p) => p,
            SortError::DirectoryCreate(p) => p,
            SortError::Collision(p) => p,
            SortError::Move(p) => p,
            SortError::InvalidPath(p) => p,
        }
    }

    /// The error in words, for a person to read.
    pub fn message(&self) -> (text: String)
        ensures
            text@ == self@.text(),
    {
        match self {
            SortError::DirectoryNotFound(p) => {
                let mut text = String::from_str("Dir ");
                text.append(p.as_str());
                text.append(" not exists");
                text
            },
            SortError::DirectoryRead(p) => {
                let mut text = String::from_str("Error reading directory: ");
                text.append(p.as_str());
                text
            },
            SortError::DirectoryCreate(p) => {
                let mut text = String::from_str("Error creating directory: ");
                text.append(p.as_str());
                text
            },
            SortError::Collision(p) => {
                let mut text = String::from_str(
                    "The file already exists in the target directory: ",
                );
                text.append(p.as_str());
                text
            },
            SortError::Move(p) => {
                let mut text = String::from_str("Error moving file: ");
                text.append(p.as_str());
                text
            },
            SortError::InvalidPath(p) => {
                let mut text = String::from_str("Invalid source file path: ");
                text.append(p.as_str());
                text
            },
        }
    }
}

} // verus!
