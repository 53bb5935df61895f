//! What can go wrong with a query.

use vstd::prelude::*;

verus! {

/// An error of one query, by the layer it comes from.
#[derive(Debug)]
pub enum BenchError {
    Io(String),
    Tls(String),
    Http(String),
    Quic(String),
    BadName(String),
    BadResponse(String),
}

/// The result of an operation of the bench.
pub type R<T> = Result<T, BenchError>;

impl BenchError {
    /// The kind of the error, as [`BenchError::label`] gives it.
    pub open spec fn label_text(self) -> Seq<char> {
        match self {
            BenchError::Io(_) => "io"@,
            BenchError::Tls(_) => "tls"@,
            BenchError::Http(_) => "http"@,
            BenchError::Quic(_) => "quic"@,
            BenchError::BadName(_) => "bad_name"@,
            BenchError::BadResponse(_) => "bad_response"@,
        }
    }

    /// What the error says, as [`BenchError::detail`] gives it.
    pub open spec fn detail_text(self) -> Seq<char> {
        match self {
            BenchError::Io(s) => s@,
            BenchError::Tls(s) => s@,
            BenchError::Http(s) => s@,
            BenchError::Quic(s) => s@,
            BenchError::BadName(s) => s@,
            BenchError::BadResponse(s) => s@,
        }
    }

    /// The one-line summary, as [`BenchError::summary`] gives it.
    pub open spec fn summary_text(self) -> Seq<char> {
        self.label_text() + ": "@ + self.detail_text()
    }

    /// The kind of the error, under which it is counted.
    pub fn label(&self) -> (r: &'static str)
        ensures
            r@ == self.label_text(),
    {
        match self {
            BenchError::Io(_) => "io",
            BenchError::Tls(_) => "tls",
            BenchError::Http(_) => "http",
            BenchError::Quic(_) => "quic",
            BenchError::BadName(_) => "bad_name",
            BenchError::BadResponse(_) => "bad_response",
        }
    }

    /// What the error says.
    pub fn detail(&self) -> (r: &str)
        ensures
            r@ == self.detail_text(),
    {
        match self {
            BenchError::Io(s) => s.as_str(),
            BenchError::Tls(s) => s.as_str(),
            BenchError::Http(s) => s.as_str(),
            BenchError::Quic(s) => s.as_str(),
            BenchError::BadName(s) => s.as_str(),
            BenchError::BadResponse(s) => s.as_str(),
        }
    }

    /// Kind and detail on one line.
    pub fn summary(&self) -> (r: String)
        ensures
            r@ == self.summary_text(),
    {
        let mut out: String = self.label().to_owned();
        out.append(": ");
        out.append(self.detail());
        out
    }
}

} // verus!
