//! Every failure the crate can report.

use vstd::prelude::*;
use vstd::string::*;

verus! {

/// A failure, with the text that explains it.
#[derive(Debug, Clone)]
pub enum Error {
    /// The store refused or failed.
    Sqlite(String),
    /// A connection could not be had.
    Pool(String),
    /// A document was not the JSON it had to be.
    Json(String),
    /// The configuration is unusable.
    Config(String),
    /// Reading or writing a file failed.
    Io(String),
    /// An HTTP exchange failed.
    Http(String),
    /// The operation would have broken an append-only or anchoring rule.
    Integrity(String),
    /// The caller asked for something that does not exist.
    NotFound(String),
    /// The caller's input is structurally invalid.
    Invalid(String),
    /// Mandatory content does not fit the configured budget.
    BudgetOverflow(String),
    /// The inference server cannot do what was asked.
    BackendUnavailable(String),
    /// Anything else.
    Other(String),
}

impl Error {
    /// The explanation carried by the error.
    pub open spec fn detail(self) -> Seq<char> {
        match self {
            Error::Sqlite(m) => m@,
            Error::Pool(m) => m@,
            Error::Json(m) => m@,
            Error::Config(m) => m@,
            Error::Io(m) => m@,
            Error::Http(m) => m@,
            Error::Integrity(m) => m@,
            Error::NotFound(m) => m@,
            Error::Invalid(m) => m@,
            Error::BudgetOverflow(m) => m@,
            Error::BackendUnavailable(m) => m@,
            Error::Other(m) => m@,
        }
    }

    /// What precedes the explanation when the error is shown.
    pub open spec fn heading(self) -> Seq<char> {
        match self {
            Error::Sqlite(_) => "storage error: "@,
            Error::Pool(_) => "connection error: "@,
            Error::Json(_) => "json error: "@,
            Error::Config(_) => "configuration error: "@,
            Error::Io(_) => "i/o error: "@,
            Error::Http(_) => "http error: "@,
            Error::Integrity(_) => "integrity violation: "@,
            Error::NotFound(_) => "not found: "@,
            Error::Invalid(_) => "invalid input: "@,
            Error::BudgetOverflow(_) => "budget overflow: "@,
            Error::BackendUnavailable(_) => "backend unavailable: "@,
            Error::Other(_) => Seq::empty(),
        }
    }

    /// An error of no particular kind.
    pub fn other(msg: &str) -> (r: Self)
        ensures
            r matches Error::Other(m) && m@ == msg@,
    {
        Error::Other(msg.to_owned())
    }

    /// Whether the failure means that the server cannot do this, which callers
    /// work around instead of failing.
    pub fn is_backend_unavailable(&self) -> (r: bool)
        ensures
            r == (*self is BackendUnavailable),
    {
        matches!(self, Error::BackendUnavailable(_))
    }

    /// The error as shown to a person: its heading, then its explanation.
    pub fn to_string(&self) -> (r: String)
        ensures
            r@ == self.heading() + self.detail(),
    {
        match self {
            Error::Sqlite(m) => String::from_str("storage error: ").concat(m.as_str()),
            Error::Pool(m) => String::from_str("connection error: ").concat(m.as_str()),
            Error::Json(m) => String::from_str("json error: ").concat(m.as_str()),
            Error::Config(m) => String::from_str("configuration error: ").concat(m.as_str()),
            Error::Io(m) => String::from_str("i/o error: ").concat(m.as_str()),
            Error::Http(m) => String::from_str("http error: ").concat(m.as_str()),
            Error::Integrity(m) => String::from_str("integrity violation: ").concat(m.as_str()),
            Error::NotFound(m) => String::from_str("not found: ").concat(m.as_str()),
            Error::Invalid(m) => String::from_str("invalid input: ").concat(m.as_str()),
            Error::BudgetOverflow(m) => String::from_str("budget overflow: ").concat(m.as_str()),
            Error::BackendUnavailable(m) => String::from_str("backend unavailable: ").concat(
                m.as_str(),
            ),
            Error::Other(m) => String::new().concat(m.as_str()),
        }
    }
}

} // verus!
