//! What can go wrong.

use vstd::prelude::*;

verus! {

/// Why a catalog could not be built or a query not answered.
#[derive(Debug, PartialEq, Eq, Clone)]
pub enum Error {
    /// The pattern does not compile, or has no group for the timestamp, or
    /// has no group for a metric. Holds the pattern.
    InvalidPattern(String),
    /// A requested name has no `.` in it. Holds the name.
    MalformedTargetName(String),
    /// A log file could not be opened. Holds its path.
    SourceUnavailable(String),
    /// The timestamp of a matching line is no numeral. Holds the line.
    TimestampParseError(String),
    /// A value of a matching line is no numeral. Holds the name of the
    /// metric and the line.
    ValueParseError(String, String),
}

/// What an [`Error`] holds.
pub enum ErrorView {
    InvalidPattern(Seq<char>),
    MalformedTargetName(Seq<char>),
    SourceUnavailable(Seq<char>),
    TimestampParseError(Seq<char>),
    ValueParseError(Seq<char>, Seq<char>),
}

impl View for Error {
    type V = ErrorView;

    open spec fn view(&self) -> ErrorView {
        match self {
            Error::InvalidPattern(pattern) => ErrorView::InvalidPattern(pattern@),
            Error::MalformedTargetName(name) => ErrorView::MalformedTargetName(name@),
            Error::SourceUnavailable(file) => ErrorView::SourceUnavailable(file@),
            Error::TimestampParseError(line) => ErrorView::TimestampParseError(line@),
            Error::ValueParseError(name, line) => ErrorView::ValueParseError(name@, line@),
        }
    }
}

} // verus!
