//! Error type of the SLOP library.

use vstd::prelude::*;

verus! {

/// The failures the SLOP parsing and insertion operations report.
#[derive(Debug)]
pub enum SlopError {
    /// A non-blank, non-comment line was neither a string key-value line nor
    /// the opener of a list. Holds the 0-based line index and the cleaned
    /// line text.
    InvalidLine(usize, String),
    /// A list block was opened but no closing `}` line followed. Holds the
    /// 0-based index and the raw text of the opening line.
    UnclosedList(usize, String),
    /// A checked insert was attempted with a key containing `=` or ending in
    /// `{`. Holds the offending key.
    InvalidKey(String),
}

/// The mathematical shape of a [`SlopError`].
pub ghost enum ErrModel {
    InvalidLine(int, Seq<char>),
    UnclosedList(int, Seq<char>),
    InvalidKey(Seq<char>),
}

impl View for SlopError {
    type V = ErrModel;

    open spec fn view(&self) -> ErrModel {
        match self {
            SlopError::InvalidLine(i, l) => ErrModel::InvalidLine(*i as int, l@),
            SlopError::UnclosedList(i, l) => ErrModel::UnclosedList(*i as int, l@),
            SlopError::InvalidKey(k) => ErrModel::InvalidKey(k@),
        }
    }
}

} // verus!
