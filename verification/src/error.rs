//! The failures that a connection reports to its client.

use crate::store::StoreError;
use vstd::prelude::*;
use vstd::string::StringExecFns;

verus! {

/// A line does not follow the statement grammar.
#[derive(Clone, Copy, Debug, PartialEq, Eq, Structural)]
pub struct ParseError;

/// A command could not be carried out.
#[derive(Clone, Copy, Debug, PartialEq, Eq, Structural)]
pub enum Error {
    /// The line is not valid UTF-8.
    Decode,
    /// The line does not follow the statement grammar.
    Parse(ParseError),
    /// The store failed to complete the operation.
    Store(StoreError),
}

impl Error {
    /// What was being done when the command failed.
    pub open spec fn context_text(self) -> Seq<char> {
        match self {
            Error::Decode => "invalid utf8"@,
            Error::Parse(_) => "parse error"@,
            Error::Store(_) => "store error"@,
        }
    }

    /// Why the command failed.
    pub open spec fn cause_text(self) -> Seq<char> {
        match self {
            Error::Decode => "the line is not valid UTF-8"@,
            Error::Parse(_) => "expected in, rd or out, and a tuple in brackets"@,
            Error::Store(StoreError::TicketsExhausted) => "the space cannot hold another waiting query"@,
        }
    }

    /// The failure as a chain: what was being done, then the cause, one
    /// line each.
    pub open spec fn chain_text(self) -> Seq<char> {
        "Error: "@ + self.context_text() + "\nCaused by: "@ + self.cause_text() + "\n"@
    }

    /// What was being done when the command failed.
    pub fn context(&self) -> (s: &'static str)
        ensures
            s@ == self.context_text(),
    {
        match self {
            Error::Decode => "invalid utf8",
            Error::Parse(_) => "parse error",
            Error::Store(_) => "store error",
        }
    }

    /// Why the command failed.
    pub fn cause(&self) -> (s: &'static str)
        ensures
            s@ == self.cause_text(),
    {
        match self {
            Error::Decode => "the line is not valid UTF-8",
            Error::Parse(_) => "expected in, rd or out, and a tuple in brackets",
            Error::Store(StoreError::TicketsExhausted) => "the space cannot hold another waiting query",
        }
    }

    /// The failure as a chain: what was being done, then the cause, one
    /// line each.
    pub fn display_chain(&self) -> (s: String)
        ensures
            s@ == self.chain_text(),
    {
        let mut out = String::from_str("Error: ");
        out.append(self.context());
        out.append("\nCaused by: ");
        out.append(self.cause());
        out.append("\n");
        out
    }
}

} // verus!
