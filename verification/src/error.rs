//! The error type shared by every stage of the pipeline.

use vstd::prelude::*;

verus! {

/// Which stage produced an error.
///
/// `Parse` marks malformed query text, `Internal` marks a query shape the
/// planner does not support, `Mysql` marks a backing-store failure reported
/// by the caller, and `Unknown` is the catch-all.
#[derive(Clone, Copy, Debug, PartialEq, Eq, Structural)]
pub enum ErrorKind {
    Parse,
    Internal,
    Mysql,
    Unknown,
}

/// An error carrying its stage and a human-readable message.
#[derive(Clone, Debug)]
pub struct Error {
    pub msg: String,
    pub kind: ErrorKind,
}

/// The name under which an error kind is reported.
pub open spec fn spec_kind_name(kind: ErrorKind) -> Seq<char> {
    match kind {
        ErrorKind::Parse => "ParseError"@,
        ErrorKind::Internal => "InternalError"@,
        ErrorKind::Mysql => "MysqlError"@,
        ErrorKind::Unknown => "UnknownError"@,
    }
}

impl ErrorKind {
    /// The name under which this kind is reported.
    pub fn name(&self) -> (r: &'static str)
        ensures
            r@ == spec_kind_name(*self),
    {
        match self {
            ErrorKind::Parse => "ParseError",
            ErrorKind::Internal => "InternalError",
            ErrorKind::Mysql => "MysqlError",
            ErrorKind::Unknown => "UnknownError",
        }
    }
}

impl Error {
    /// A fresh error of the given kind.
    pub fn new(kind: ErrorKind, msg: String) -> (r: Error)
        ensures
            r.kind == kind,
            r.msg == msg,
    {
        Error { msg, kind }
    }

    /// The full report, `"<kind name>: <message>"`.
    pub fn describe(&self) -> (r: String)
        ensures
            r@ == spec_kind_name(self.kind) + ": "@ + self.msg@,
    {
        let head = String::from_str(self.kind.name());
        let with_sep = head.concat(": ");
        with_sep.concat(self.msg.as_str())
    }
}

} // verus!
