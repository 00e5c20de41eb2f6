//! Error types of the crate: parsing failures of dialogue records, and the
//! error values that the surrounding reader, writer and repository ports
//! report. None of these types prints itself; each offers a `message`
//! method that renders the text a front end would show.

use vstd::prelude::*;

use crate::text::{dec_str, dec_of, string_of};

verus! {

/// Failure while reading one dialogue record.
#[derive(Debug, Clone, Copy, PartialEq, Eq, Structural)]
pub enum ParserError {
    /// The comma-separated payload held fewer than the required ten fields.
    MissingFields { found: usize },
    /// The record does not begin with the dialogue marker.
    DialoguePrefix,
    /// A timestamp component is not a bounded decimal number.
    TimeParse,
}

pub type ParseRes<T> = Result<T, ParserError>;

impl ParserError {
    /// Human-readable description of the failure.
    pub fn message(&self) -> (r: String)
        ensures
            parser_message_holds(*self, r@),
    {
        match self {
            ParserError::MissingFields { found } => {
                let mut s = String::from_str("Missing Fields: Expected 10, found ");
                let digits = dec_of(*found as u64);
                let tail = string_of(digits.as_slice());
                s.append(tail.as_str());
                s
            },
            ParserError::DialoguePrefix => {
                String::from_str("Prefix Error: Line does not start with 'Dialogue:'")
            },
            ParserError::TimeParse => {
                String::from_str("Time Error: Unparsable timestamp component")
            },
        }
    }
}

/// Error reported by the subtitle repository port.
#[derive(Debug, Clone, PartialEq, Eq)]
pub enum RepositoryError {
    SourceNotFound { context: String },
    ReadError { context: String },
    AccessDenied { context: String },
    SaveFailed { context: String },
    InvalidFormat { details: String },
}

pub type RepoRes<T> = Result<T, RepositoryError>;

impl RepositoryError {
    /// Human-readable description of the failure.
    pub fn message(&self) -> (r: String)
        ensures
            *self matches RepositoryError::SourceNotFound { context } ==>
                r@ == "Source not found: "@ + context@,
            *self matches RepositoryError::ReadError { context } ==>
                r@ == "Failed to read data from: "@ + context@,
            *self matches RepositoryError::AccessDenied { context } ==>
                r@ == "Access denied: "@ + context@,
            *self matches RepositoryError::SaveFailed { context } ==>
                r@ == "Failed to save data to: "@ + context@,
            *self matches RepositoryError::InvalidFormat { details } ==>
                r@ == "Format error: "@ + details@,
    {
        match self {
            RepositoryError::SourceNotFound { context } => {
                let mut s = String::from_str("Source not found: ");
                s.append(context.as_str());
                s
            },
            RepositoryError::ReadError { context } => {
                let mut s = String::from_str("Failed to read data from: ");
                s.append(context.as_str());
                s
            },
            RepositoryError::AccessDenied { context } => {
                let mut s = String::from_str("Access denied: ");
                s.append(context.as_str());
                s
            },
            RepositoryError::SaveFailed { context } => {
                let mut s = String::from_str("Failed to save data to: ");
                s.append(context.as_str());
                s
            },
            RepositoryError::InvalidFormat { details } => {
                let mut s = String::from_str("Format error: ");
                s.append(details.as_str());
                s
            },
        }
    }
}

/// Error reported by the line reader and writer ports.
#[derive(Debug, Clone, PartialEq, Eq)]
pub enum IOError {
    ConnectionFailed { context: String },
    ReadError { context: String },
    WriteError { context: String },
    InvalidData { details: String },
}

impl IOError {
    fn read_msg(ctx: &str) -> (r: String)
        ensures
            r@ == "Failed to read from: "@ + ctx@,
    {
        let mut s = String::from_str("Failed to read from: ");
        s.append(ctx);
        s
    }

    fn write_msg(ctx: &str) -> (r: String)
        ensures
            r@ == "Failed to write to: "@ + ctx@,
    {
        let mut s = String::from_str("Failed to write to: ");
        s.append(ctx);
        s
    }

    fn conn_msg(ctx: &str) -> (r: String)
        ensures
            r@ == "Connection error: "@ + ctx@,
    {
        let mut s = String::from_str("Connection error: ");
        s.append(ctx);
        s
    }

    /// Human-readable description of the failure.
    pub fn message(&self) -> (r: String)
        ensures
            *self matches IOError::ConnectionFailed { context } ==>
                r@ == "Connection error: "@ + context@,
            *self matches IOError::ReadError { context } ==>
                r@ == "Failed to read from: "@ + context@,
            *self matches IOError::WriteError { context } ==>
                r@ == "Failed to write to: "@ + context@,
            *self matches IOError::InvalidData { details } ==>
                r@ == "Invalid data: "@ + details@,
    {
        match self {
            IOError::ConnectionFailed { context } => Self::conn_msg(context.as_str()),
            IOError::ReadError { context } => Self::read_msg(context.as_str()),
            IOError::WriteError { context } => Self::write_msg(context.as_str()),
            IOError::InvalidData { details } => {
                let mut s = String::from_str("Invalid data: ");
                s.append(details.as_str());
                s
            },
        }
    }
}

/// Error of the whole processing pipeline: either the repository failed or a
/// record could not be parsed.
#[derive(Debug, Clone, PartialEq, Eq)]
pub enum AssError {
    Repository(RepositoryError),
    Parser(ParserError),
}

pub type AssRes<T> = Result<T, AssError>;

impl AssError {
    /// Wraps a repository failure.
    pub fn from_repository(e: RepositoryError) -> (r: AssError)
        ensures
            r == AssError::Repository(e),
    {
        AssError::Repository(e)
    }

    /// Wraps a parse failure.
    pub fn from_parser(e: ParserError) -> (r: AssError)
        ensures
            r == AssError::Parser(e),
    {
        AssError::Parser(e)
    }

    /// Human-readable description of the failure.
    pub fn message(&self) -> (r: String)
        ensures
            *self matches AssError::Repository(e) ==> r@ == e.message_view(),
            *self matches AssError::Parser(e) ==> parser_message_holds(e, r@),
    {
        match self {
            AssError::Repository(e) => e.message(),
            AssError::Parser(e) => e.message(),
        }
    }
}

/// The text that `RepositoryError::message` renders.
pub open spec fn repository_message_view(e: RepositoryError) -> Seq<char> {
    match e {
        RepositoryError::SourceNotFound { context } => "Source not found: "@ + context@,
        RepositoryError::ReadError { context } => "Failed to read data from: "@ + context@,
        RepositoryError::AccessDenied { context } => "Access denied: "@ + context@,
        RepositoryError::SaveFailed { context } => "Failed to save data to: "@ + context@,
        RepositoryError::InvalidFormat { details } => "Format error: "@ + details@,
    }
}

impl RepositoryError {
    /// The text that `message` renders.
    pub open spec fn message_view(&self) -> Seq<char> {
        repository_message_view(*self)
    }
}

/// The text that `ParserError::message` renders.
pub open spec fn parser_message_holds(e: ParserError, s: Seq<char>) -> bool {
    match e {
        ParserError::MissingFields { found } =>
            s == "Missing Fields: Expected 10, found "@ + dec_str(found as int),
        ParserError::DialoguePrefix =>
            s == "Prefix Error: Line does not start with 'Dialogue:'"@,
        ParserError::TimeParse => s == "Time Error: Unparsable timestamp component"@,
    }
}

} // verus!
