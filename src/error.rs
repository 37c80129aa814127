use vstd::prelude::*;

use crate::sqlite::error_message;

verus! {

/// The failures of the notebook, by kind; each carries a message.
#[derive(Clone, Debug)]
pub enum NotebookError {
    /// The vector index failed to store or delete embeddings.
    EmbeddingPersistence(String),
    /// The relational store failed.
    ModelPersistence(String),
    /// A file or directory could not be read or written.
    FileAccess(String),
    /// Computing or querying embeddings failed.
    EmbeddingError(String),
    /// No note has the id.
    NoteNotFound(String),
}

impl NotebookError {
    /// The relational store's failure `e`.
    pub fn from_sql(e: &rusqlite::Error) -> (r: NotebookError)
        ensures
            r is ModelPersistence,
    {
        NotebookError::ModelPersistence(error_message(e))
    }

    /// The kind of the failure followed by its message.
    pub fn describe(&self) -> (r: String)
        ensures
            r@ == match self {
                NotebookError::EmbeddingPersistence(m) => "Persistence error: "@ + m@,
                NotebookError::ModelPersistence(m) => "Models db error: "@ + m@,
                NotebookError::FileAccess(m) => "File access error: "@ + m@,
                NotebookError::EmbeddingError(m) => "Embedding error: "@ + m@,
                NotebookError::NoteNotFound(m) => "Note not found: "@ + m@,
            },
    {
        let (mut head, msg) = match self {
            NotebookError::EmbeddingPersistence(m) => ("Persistence error: ".to_string(), m),
            NotebookError::ModelPersistence(m) => ("Models db error: ".to_string(), m),
            NotebookError::FileAccess(m) => ("File access error: ".to_string(), m),
            NotebookError::EmbeddingError(m) => ("Embedding error: ".to_string(), m),
            NotebookError::NoteNotFound(m) => ("Note not found: ".to_string(), m),
        };
        head.append(msg.as_str());
        head
    }
}

} // verus!
