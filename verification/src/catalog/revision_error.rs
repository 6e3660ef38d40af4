//! Reading stored definitions.

use vstd::prelude::*;

verus! {

/// Why a stored definition cannot be read.
#[derive(Debug, PartialEq, Eq)]
pub enum RevisionError {
    /// The bytes end too early.
    Truncated,
    /// An integer that does not fit its type.
    IntegerOverflow,
    /// No encoding of an integer.
    InvalidIntegerEncoding,
    /// A value that cannot be brought to the current form.
    Conversion(String),
    /// Any other failure.
    Other,
}

/// What a [`RevisionError`] says.
pub enum RevisionErrorView {
    Truncated,
    IntegerOverflow,
    InvalidIntegerEncoding,
    Conversion(Seq<char>),
    Other,
}

impl View for RevisionError {
    type V = RevisionErrorView;

    open spec fn view(&self) -> RevisionErrorView {
        match *self {
            RevisionError::Truncated => RevisionErrorView::Truncated,
            RevisionError::IntegerOverflow => RevisionErrorView::IntegerOverflow,
            RevisionError::InvalidIntegerEncoding => RevisionErrorView::InvalidIntegerEncoding,
            RevisionError::Conversion(s) => RevisionErrorView::Conversion(s@),
            RevisionError::Other => RevisionErrorView::Other,
        }
    }
}

} // verus!
