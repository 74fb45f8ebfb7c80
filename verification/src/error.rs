//! What can go wrong while a statement is read.

use vstd::prelude::*;

verus! {

/// An error of the FinTS client.
#[derive(Debug, PartialEq, Eq)]
pub enum FinTSError {
    /// An MT940 statement could not be read.
    Mt940(String),
    /// A message of the dialog could not be read.
    Dialog(String),
}

/// An error with its message as a sequence of characters.
pub enum FinTSErrorView {
    Mt940(Seq<char>),
    Dialog(Seq<char>),
}

impl View for FinTSError {
    type V = FinTSErrorView;

    open spec fn view(&self) -> FinTSErrorView {
        match self {
            FinTSError::Mt940(message) => FinTSErrorView::Mt940(message@),
            FinTSError::Dialog(message) => FinTSErrorView::Dialog(message@),
        }
    }
}

} // verus!
