//! The library's error.

use vstd::prelude::*;
use vstd::string::*;

use crate::text::owned;

verus! {

/// What went wrong, by where it did.
#[derive(Debug, PartialEq, Eq)]
pub enum Error {
    Config(String),
    Io(String),
    Sqlite(String),
    Github(String),
}

/// An error by its kind and its message.
pub struct Failure {
    pub prefix: Seq<char>,
    pub message: Seq<char>,
}

impl View for Error {
    type V = Failure;

    open spec fn view(&self) -> Failure {
        match self {
            Error::Config(m) => Failure { prefix: "config: "@, message: m@ },
            Error::Io(m) => Failure { prefix: "io: "@, message: m@ },
            Error::Sqlite(m) => Failure { prefix: "sqlite: "@, message: m@ },
            Error::Github(m) => Failure { prefix: "github: "@, message: m@ },
        }
    }
}

/// A configuration error with this message.
pub open spec fn config_error(message: Seq<char>) -> Failure {
    Failure { prefix: "config: "@, message }
}

/// A GitHub error with this message.
pub open spec fn github_error(message: Seq<char>) -> Failure {
    Failure { prefix: "github: "@, message }
}

impl Error {
    /// The error as it is shown.
    pub fn text(&self) -> (r: String)
        ensures
            r@ == self@.prefix + self@.message,
    {
        match self {
            Error::Config(m) => {
                let mut s = owned("config: ");
                s.append(m.as_str());
                s
            },
            Error::Io(m) => {
                let mut s = owned("io: ");
                s.append(m.as_str());
                s
            },
            Error::Sqlite(m) => {
                let mut s = owned("sqlite: ");
                s.append(m.as_str());
                s
            },
            Error::Github(m) => {
                let mut s = owned("github: ");
                s.append(m.as_str());
                s
            },
        }
    }
}

/// A failure says first where it comes from, and then what it is.
pub proof fn a_failure_says_its_source(e: Error)
    ensures
        e matches Error::Config(m) ==> e@ == config_error(m@) && e@.prefix + e@.message
            == "config: "@ + m@,
        e matches Error::Github(m) ==> e@ == github_error(m@) && e@.prefix + e@.message
            == "github: "@ + m@,
        e matches Error::Io(m) ==> e@.prefix + e@.message == "io: "@ + m@,
        e matches Error::Sqlite(m) ==> e@.prefix + e@.message == "sqlite: "@ + m@,
{
}

} // verus!
