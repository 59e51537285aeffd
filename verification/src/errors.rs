//! The errors that the library reports.

use vstd::prelude::*;
use crate::text::joined;

verus! {

/// Declares `rusqlite::Error`, the error of every SQLite call.
#[verifier::external_type_specification]
#[verifier::external_body]
pub struct ExSqliteError(rusqlite::Error);

/// The text of a `rusqlite::Error`. Nothing is said of it: SQLite words its own messages.
#[verifier::external_body]
fn sqlite_error_text(error: &rusqlite::Error) -> String {
    error.to_string()
}

/// Whether `rusqlite::Error::sqlite_error_code` is that of a database which another connection keeps
/// busy. Which errors those are is left unsaid: the error is SQLite's own.
#[verifier::external_body]
pub(crate) fn is_busy(error: &rusqlite::Error) -> bool {
    matches!(error.sqlite_error_code(), Some(rusqlite::ErrorCode::DatabaseBusy))
}

/// Errors from the search index.
#[derive(Debug)]
pub enum SearchIndexError {
    /// SQLite refused a statement.
    Sqlite(rusqlite::Error),
    /// A file or a path could not be used.
    Io(String),
    /// A meeting's frontmatter could not be used.
    Frontmatter { path: String, message: String },
}

impl From<rusqlite::Error> for SearchIndexError {
    fn from(error: rusqlite::Error) -> (wrapped: Self) {
        SearchIndexError::Sqlite(error)
    }
}

impl vstd::std_specs::convert::FromSpecImpl<rusqlite::Error> for SearchIndexError {
    open spec fn obeys_from_spec() -> bool {
        true
    }

    open spec fn from_spec(error: rusqlite::Error) -> Self {
        SearchIndexError::Sqlite(error)
    }
}

/// Whether `text` words `error`: what kind it is, then what it says. The words of SQLite's own
/// errors are not fixed.
pub open spec fn words_error(error: SearchIndexError, text: Seq<char>) -> bool {
    match error {
        SearchIndexError::Sqlite(_) => exists|reason: Seq<char>|
            text == #[trigger] ("sqlite error: "@ + reason),
        SearchIndexError::Io(message) => text == "I/O error: "@ + message@,
        SearchIndexError::Frontmatter { path, message } => text == "frontmatter parse error in "@
            + path@ + ": "@ + message@,
    }
}

impl SearchIndexError {
    /// The error in words.
    pub fn message(&self) -> (text: String)
        ensures
            words_error(*self, text@),
    {
        match self {
            SearchIndexError::Sqlite(error) => joined(
                "sqlite error: ",
                sqlite_error_text(error).as_str(),
            ),
            SearchIndexError::Io(message) => joined("I/O error: ", message.as_str()),
            SearchIndexError::Frontmatter { path, message } => {
                let mut text = joined("frontmatter parse error in ", path.as_str());
                text.append(": ");
                text.append(message.as_str());
                text
            },
        }
    }

    /// The error as the search facade reports it.
    pub fn into_search_error(self) -> (error: SearchError)
        ensures
            error matches SearchError::Index(text) && words_error(self, text@),
    {
        SearchError::Index(self.message())
    }
}

/// Errors from the search facade.
#[derive(Debug)]
pub enum SearchError {
    /// The index failed; the text says how.
    Index(String),
}

/// Errors from audio capture.
#[derive(Debug)]
pub enum CaptureError {
    /// An operation failed; the text says which, and how.
    Io(String),
}

/// What a capture error says: the operation, then what went wrong.
pub open spec fn capture_message(operation: Seq<char>, error: Seq<char>) -> Seq<char> {
    operation + ": "@ + error
}

/// Whether `error` says that `operation` went wrong in this way.
pub open spec fn is_capture_error(
    error: CaptureError,
    operation: Seq<char>,
    reason: Seq<char>,
) -> bool {
    error matches CaptureError::Io(text) && text@ == capture_message(operation, reason)
}

/// A capture error that names the operation and what went wrong.
pub fn capture_error(operation: &str, error: &str) -> (capture: CaptureError)
    ensures
        is_capture_error(capture, operation@, error@),
{
    let mut text = joined(operation, ": ");
    text.append(error);
    CaptureError::Io(text)
}

/// Every error says what kind it is before it says what went wrong.
pub proof fn errors_name_their_kind(
    sqlite: rusqlite::Error,
    message: String,
    path: String,
    text: Seq<char>,
)
    ensures
        words_error(SearchIndexError::Sqlite(sqlite), text) ==> "sqlite error: "@.is_prefix_of(text),
        words_error(SearchIndexError::Io(message), text) == (text == "I/O error: "@ + message@),
        words_error(SearchIndexError::Frontmatter { path, message }, text) == (text
            == "frontmatter parse error in "@ + path@ + ": "@ + message@),
{
}

/// A capture error names its operation, and then what went wrong with it.
pub proof fn capture_errors_name_their_operation(
    error: CaptureError,
    operation: Seq<char>,
    reason: Seq<char>,
)
    ensures
        capture_message(operation, reason) == operation + ": "@ + reason,
        is_capture_error(error, operation, reason) == (error matches CaptureError::Io(text) && text@
            == operation + ": "@ + reason),
{
}

} // verus!
