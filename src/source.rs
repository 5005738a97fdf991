//! Where the source lines come from.
use vstd::prelude::*;
use crate::text::copy_strings;

verus! {

/// The source of the text: lines already read (from standard input), or a
/// file to read.
#[derive(Debug)]
pub enum SourceInput {
    FullInput(Vec<String>),
    FilePath(String),
}

/// Produces the source lines, again on every reload.
#[derive(Debug)]
pub struct SourceProducer {
    pub input: SourceInput,
}

impl SourceProducer {
    /// The lines held in memory; `None` where they are to be read from the
    /// file that [`Self::file_path`] names.
    pub fn get_source(&self) -> (r: Option<Vec<String>>)
        ensures
            match self.input {
                SourceInput::FullInput(v) => r matches Some(l) && l@ == v@,
                SourceInput::FilePath(_) => r is None,
            },
    {
        match &self.input {
            SourceInput::FullInput(full_input) => Some(copy_strings(full_input)),
            SourceInput::FilePath(_) => None,
        }
    }

    /// The file to read, where the source is a file.
    pub fn file_path(&self) -> (r: Option<&String>)
        ensures
            match self.input {
                SourceInput::FullInput(_) => r is None,
                SourceInput::FilePath(p) => r == Some(&p),
            },
    {
        match &self.input {
            SourceInput::FullInput(_) => None,
            SourceInput::FilePath(path) => Some(path),
        }
    }
}

} // verus!
