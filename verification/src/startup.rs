//! The file named on the command line at launch, handed over once.

use crate::filter::{ends_with, has_suffix};
use vstd::prelude::*;

verus! {

/// `path` ends with one of the document suffixes, compared exactly.
pub open spec fn is_document_path(path: Seq<char>) -> bool {
    has_suffix(path, ".md"@) || has_suffix(path, ".markdown"@) || has_suffix(path, ".txt"@)
}

/// The file to open at launch: the first argument after the program's name,
/// if it is a document path.
pub open spec fn startup_file_of(args: Seq<String>) -> Option<Seq<char>> {
    if args.len() > 1 && is_document_path(args[1]@) {
        Some(args[1]@)
    } else {
        None
    }
}

/// The view of an optional path.
pub open spec fn optional_path(path: Option<String>) -> Option<Seq<char>> {
    match path {
        Some(p) => Some(p@),
        None => None,
    }
}

/// Whether `path` names a document that can be opened at launch.
pub fn is_document(path: &str) -> (found: bool)
    ensures
        found == is_document_path(path@),
{
    ends_with(path, ".md") || ends_with(path, ".markdown") || ends_with(path, ".txt")
}

/// Picks the file to open at launch from the command line, `args[0]` being
/// the program's name.
pub fn startup_file(args: &Vec<String>) -> (path: Option<String>)
    ensures
        optional_path(path) == startup_file_of(args@),
{
    if args.len() > 1 && is_document(args[1].as_str()) {
        Some(args[1].clone())
    } else {
        None
    }
}

/// Holds the launch file until the front end asks for it.
pub struct StartupFile {
    path: Option<String>,
}

impl StartupFile {
    /// The path still waiting to be handed over.
    pub closed spec fn waiting(&self) -> Option<Seq<char>> {
        optional_path(self.path)
    }

    /// Holds `path` for the first request.
    pub fn new(path: Option<String>) -> (held: StartupFile)
        ensures
            held.waiting() == optional_path(path),
    {
        StartupFile { path }
    }

    /// Hands the path over. Only the first call after [`StartupFile::new`]
    /// can return one: afterwards nothing is waiting.
    pub fn take(&mut self) -> (path: Option<String>)
        ensures
            optional_path(path) == old(self).waiting(),
            final(self).waiting() is None,
    {
        let mut path: Option<String> = None;
        std::mem::swap(&mut self.path, &mut path);
        path
    }
}

} // verus!
