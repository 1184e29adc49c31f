//! What can go wrong with a snapshot.
use vstd::prelude::*;

use crate::text::join2;

verus! {

/// Why a snapshot, a copy or a restore was given up.
#[derive(Debug)]
pub enum BackupError {
    /// The file system refused an operation; the text is its own account of why.
    Io(String),
    /// The database engine refused, or the data is not what the manifest says.
    Snapshot(String),
}

/// [`BackupError`] with its text as a sequence of characters.
pub enum ErrorView {
    Io(Seq<char>),
    Snapshot(Seq<char>),
}

impl View for BackupError {
    type V = ErrorView;

    open spec fn view(&self) -> ErrorView {
        match self {
            BackupError::Io(text) => ErrorView::Io(text@),
            BackupError::Snapshot(text) => ErrorView::Snapshot(text@),
        }
    }
}

/// The sentence in which an error is reported.
pub open spec fn error_message(error: ErrorView) -> Seq<char> {
    match error {
        ErrorView::Io(text) => "snapshot io: "@ + text,
        ErrorView::Snapshot(text) => "snapshot failed: "@ + text,
    }
}

impl BackupError {
    /// The error in one sentence.
    pub fn message(&self) -> (text: String)
        ensures
            text@ == error_message(self@),
    {
        match self {
            BackupError::Io(text) => join2("snapshot io: ", text.as_str()),
            BackupError::Snapshot(text) => join2("snapshot failed: ", text.as_str()),
        }
    }
}

/// An error is reported with its text, word for word, behind the words that tell a refusal of the
/// file system from a failed snapshot.
pub proof fn law_message_ends_with_the_text(text: Seq<char>)
    ensures
        ("snapshot io: "@).is_prefix_of(error_message(ErrorView::Io(text))),
        error_message(ErrorView::Io(text)).skip("snapshot io: "@.len() as int) == text,
        ("snapshot failed: "@).is_prefix_of(error_message(ErrorView::Snapshot(text))),
        error_message(ErrorView::Snapshot(text)).skip("snapshot failed: "@.len() as int) == text,
{
    let io = error_message(ErrorView::Io(text));
    let failed = error_message(ErrorView::Snapshot(text));
    assert("snapshot io: "@ =~= io.take("snapshot io: "@.len() as int));
    assert("snapshot failed: "@ =~= failed.take("snapshot failed: "@.len() as int));
    assert(io.skip("snapshot io: "@.len() as int) =~= text);
    assert(failed.skip("snapshot failed: "@.len() as int) =~= text);
}

} // verus!
