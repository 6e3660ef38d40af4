//! What can go wrong with a transaction.

use vstd::prelude::*;

use crate::text::joined;

verus! {

/// Why a transaction or the datastore refused a request.
#[derive(Debug)]
pub enum Error {
    /// The store below failed.
    Datastore(String),
    /// An internal fault.
    Internal(String),
    /// The transaction was committed or cancelled before.
    TransactionFinished,
    /// The transaction was opened for reading.
    TransactionReadonly,
    /// The key to be inserted has a value.
    TransactionKeyAlreadyExists,
    /// The current value is not the expected one.
    TransactionConditionNotMet,
    /// Another transaction got in the way; a retry may succeed.
    TransactionConflict(String),
    /// There is no save point to return to or to release.
    NoSavePointPresent,
    /// The datastore keeps no versions to read from.
    UnsupportedVersionedQueries,
}

/// What an [`Error`] says.
pub enum ErrorView {
    Datastore(Seq<char>),
    Internal(Seq<char>),
    TransactionFinished,
    TransactionReadonly,
    TransactionKeyAlreadyExists,
    TransactionConditionNotMet,
    TransactionConflict(Seq<char>),
    NoSavePointPresent,
    UnsupportedVersionedQueries,
}

impl View for Error {
    type V = ErrorView;

    open spec fn view(&self) -> ErrorView {
        match *self {
            Error::Datastore(s) => ErrorView::Datastore(s@),
            Error::Internal(s) => ErrorView::Internal(s@),
            Error::TransactionFinished => ErrorView::TransactionFinished,
            Error::TransactionReadonly => ErrorView::TransactionReadonly,
            Error::TransactionKeyAlreadyExists => ErrorView::TransactionKeyAlreadyExists,
            Error::TransactionConditionNotMet => ErrorView::TransactionConditionNotMet,
            Error::TransactionConflict(s) => ErrorView::TransactionConflict(s@),
            Error::NoSavePointPresent => ErrorView::NoSavePointPresent,
            Error::UnsupportedVersionedQueries => ErrorView::UnsupportedVersionedQueries,
        }
    }
}

/// The text of an error.
pub open spec fn error_text(e: ErrorView) -> Seq<char> {
    match e {
        ErrorView::Datastore(s) => "There was a problem with the datastore: "@ + s,
        ErrorView::Internal(s) => "Internal error: "@ + s,
        ErrorView::TransactionFinished => "The transaction is already finished"@,
        ErrorView::TransactionReadonly => "The transaction is read only"@,
        ErrorView::TransactionKeyAlreadyExists => "The key being inserted already exists"@,
        ErrorView::TransactionConditionNotMet => "The value being checked was not correct"@,
        ErrorView::TransactionConflict(s) => "Transaction conflict: "@ + s,
        ErrorView::NoSavePointPresent => "There is no save point"@,
        ErrorView::UnsupportedVersionedQueries => "The datastore does not support versioned queries"@,
    }
}

impl Error {
    /// A failure of the store below.
    pub fn datastore(message: &str) -> (e: Error)
        ensures
            e@ == ErrorView::Datastore(message@),
    {
        Error::Datastore(message.to_owned())
    }

    /// Whether the same request may succeed when it is tried again.
    pub fn is_retryable(&self) -> (retry: bool)
        ensures
            retry == (self@ is TransactionConflict),
    {
        match self {
            Error::TransactionConflict(_) => true,
            _ => false,
        }
    }

    /// The text of the error.
    pub fn message(&self) -> (text: String)
        ensures
            text@ == error_text(self@),
    {
        match self {
            Error::Datastore(s) => joined("There was a problem with the datastore: ", s.as_str()),
            Error::Internal(s) => joined("Internal error: ", s.as_str()),
            Error::TransactionFinished => "The transaction is already finished".to_owned(),
            Error::TransactionReadonly => "The transaction is read only".to_owned(),
            Error::TransactionKeyAlreadyExists => {
                "The key being inserted already exists".to_owned()
            },
            Error::TransactionConditionNotMet => {
                "The value being checked was not correct".to_owned()
            },
            Error::TransactionConflict(s) => joined("Transaction conflict: ", s.as_str()),
            Error::NoSavePointPresent => "There is no save point".to_owned(),
            Error::UnsupportedVersionedQueries => {
                "The datastore does not support versioned queries".to_owned()
            },
        }
    }
}

/// The text of each error: of a failure below, of an internal fault and of a
/// conflict it ends with the message that came with it.
pub proof fn errors_read(e: Error)
    ensures
        match e {
            Error::Datastore(s) => e@ == ErrorView::Datastore(s@) && error_text(e@)
                == "There was a problem with the datastore: "@ + s@,
            Error::Internal(s) => e@ == ErrorView::Internal(s@) && error_text(e@)
                == "Internal error: "@ + s@,
            Error::TransactionFinished => e@ is TransactionFinished && error_text(e@)
                == "The transaction is already finished"@,
            Error::TransactionReadonly => e@ is TransactionReadonly && error_text(e@)
                == "The transaction is read only"@,
            Error::TransactionKeyAlreadyExists => e@ is TransactionKeyAlreadyExists && error_text(
                e@,
            ) == "The key being inserted already exists"@,
            Error::TransactionConditionNotMet => e@ is TransactionConditionNotMet && error_text(e@)
                == "The value being checked was not correct"@,
            Error::TransactionConflict(s) => e@ == ErrorView::TransactionConflict(s@) && error_text(
                e@,
            ) == "Transaction conflict: "@ + s@,
            Error::NoSavePointPresent => e@ is NoSavePointPresent && error_text(e@)
                == "There is no save point"@,
            Error::UnsupportedVersionedQueries => e@ is UnsupportedVersionedQueries && error_text(
                e@,
            ) == "The datastore does not support versioned queries"@,
        },
{
}

} // verus!
