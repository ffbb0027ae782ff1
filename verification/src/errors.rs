//! The library's error taxonomy.

use vstd::prelude::*;

verus! {

/// Everything that can go wrong in the library or at its edges.
#[derive(Clone, Debug, PartialEq, Eq)]
pub enum Error {
    /// A file-system operation failed; the payload describes it.
    Io(String),
    /// An operation required a selected buffer, but the workspace has none.
    EmptyWorkspace,
    /// No scope could be computed at the cursor position.
    MissingScope,
    /// An operation required a syntax definition, but none is configured.
    MissingSyntax,
    /// A reload or save was attempted with no path set.
    MissingPath,
    /// The tokenization collaborator failed to parse a line.
    Parsing(String),
    /// The tokenization collaborator rejected a scope operation.
    Scope(String),
    /// A syntax definition could not be loaded.
    SyntaxLoading(String),
}

impl Error {
    /// A human-readable description of the error.
    pub fn message(&self) -> String {
        match self {
            Error::Io(detail) => detail.clone(),
            Error::EmptyWorkspace => "the workspace is empty".to_owned(),
            Error::MissingScope => "couldn't find any scopes at the cursor position".to_owned(),
            Error::MissingSyntax => "no syntax definition for the current buffer".to_owned(),
            Error::MissingPath => "the buffer has no path".to_owned(),
            Error::Parsing(detail) => detail.clone(),
            Error::Scope(detail) => detail.clone(),
            Error::SyntaxLoading(detail) => detail.clone(),
        }
    }
}

} // verus!
