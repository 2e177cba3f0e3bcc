//! The errors a query can end in.
use vstd::prelude::*;

verus! {

/// Why a query failed.
#[derive(Debug)]
pub enum QueryError {
    /// No session to the remote host is open.
    NotConnected,
    /// Running a command or moving a file failed at the protocol level; the text
    /// says which step.
    Transport(String),
    /// The remote script ran and reported a failure of the query itself.
    Script(String),
    /// The result file never appeared, or could not be decoded.
    Integrity(String),
    /// The request named a kind of query that does not exist.
    UnsupportedKind(String),
}

/// The mathematical value of a `QueryError`.
pub enum ErrorV {
    NotConnected,
    Transport(Seq<char>),
    Script(Seq<char>),
    Integrity(Seq<char>),
    UnsupportedKind(Seq<char>),
}

impl View for QueryError {
    type V = ErrorV;

    open spec fn view(&self) -> ErrorV {
        match self {
            QueryError::NotConnected => ErrorV::NotConnected,
            QueryError::Transport(s) => ErrorV::Transport(s@),
            QueryError::Script(s) => ErrorV::Script(s@),
            QueryError::Integrity(s) => ErrorV::Integrity(s@),
            QueryError::UnsupportedKind(s) => ErrorV::UnsupportedKind(s@),
        }
    }
}

impl QueryError {
    /// Whether this is an integrity error.
    pub open spec fn is_integrity(&self) -> bool {
        self is Integrity
    }

    /// The text shown to the caller.
    pub fn message(&self) -> (r: String)
        ensures
            match self@ {
                ErrorV::NotConnected => r@ == "not connected"@,
                ErrorV::Transport(m) => r@ == "transport error: "@ + m,
                ErrorV::Script(m) => r@ == "query failed: "@ + m,
                ErrorV::Integrity(m) => r@ == "integrity error: "@ + m,
                ErrorV::UnsupportedKind(m) => r@ == "unsupported query type: "@ + m,
            },
    {
        let mut r = String::new();
        match self {
            QueryError::NotConnected => {
                r.append("not connected");
                assert(r@ =~= "not connected"@);
            },
            QueryError::Transport(m) => {
                r.append("transport error: ");
                r.append(m.as_str());
            },
            QueryError::Script(m) => {
                r.append("query failed: ");
                r.append(m.as_str());
            },
            QueryError::Integrity(m) => {
                r.append("integrity error: ");
                r.append(m.as_str());
            },
            QueryError::UnsupportedKind(m) => {
                r.append("unsupported query type: ");
                r.append(m.as_str());
            },
        }
        r
    }
}

} // verus!
