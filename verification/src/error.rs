//! What can go wrong while a request is served.

use vstd::prelude::*;

verus! {

/// Failures that the server itself detects.
#[derive(Clone, Copy, Debug, PartialEq, Eq, Structural)]
pub enum InternalError {
    /// The request is malformed.
    FormatError,
    /// A header field that the request needs is missing.
    RequiredHeaderField,
    /// The connection ended; it is to be closed.
    EOFReached,
    /// Anything else.
    Unknown,
}

impl InternalError {
    /// The error in words.
    pub open spec fn text(self) -> Seq<char> {
        match self {
            InternalError::FormatError => "format error"@,
            InternalError::RequiredHeaderField => "required header field is not provided"@,
            InternalError::EOFReached => "eof reached without expectation"@,
            InternalError::Unknown => "unknown error"@,
        }
    }

    /// The error in words.
    pub fn to_string(&self) -> (r: String)
        ensures
            r@ == self.text(),
    {
        match self {
            InternalError::FormatError => "format error".to_owned(),
            InternalError::RequiredHeaderField => {
                "required header field is not provided".to_owned()
            },
            InternalError::EOFReached => "eof reached without expectation".to_owned(),
            InternalError::Unknown => "unknown error".to_owned(),
        }
    }
}

/// No variant of an enumeration has the given name.
#[derive(Clone, Copy, Debug, PartialEq, Eq, Structural)]
pub enum ParseError {
    VariantNotFound,
}

impl ParseError {
    /// The error in words.
    pub fn to_string(&self) -> (r: String)
        ensures
            r@ == "Matching variant not found"@,
    {
        "Matching variant not found".to_owned()
    }
}

/// The kinds of input and output errors that are told apart.
#[derive(Clone, Copy, Debug, PartialEq, Eq, Structural)]
pub enum IoErrorKind {
    BrokenPipe,
    ConnectionReset,
    Other,
}

impl IoErrorKind {
    /// Whether the peer has gone away.
    pub open spec fn disconnects(self) -> bool {
        self is BrokenPipe || self is ConnectionReset
    }
}

/// An error of reading or writing.
#[derive(Debug, PartialEq, Eq)]
pub struct IoError {
    pub kind: IoErrorKind,
    pub message: String,
}

impl IoError {
    /// Whether the peer has gone away.
    pub fn disconnects(&self) -> (r: bool)
        ensures
            r == self.kind.disconnects(),
    {
        match self.kind {
            IoErrorKind::BrokenPipe | IoErrorKind::ConnectionReset => true,
            IoErrorKind::Other => false,
        }
    }
}

/// The reason why a request was not served.
#[derive(Debug, PartialEq, Eq)]
pub enum HandleError {
    Internal(InternalError),
    Io(IoError),
}

impl HandleError {
    /// Whether the error only says that the connection is over.
    pub open spec fn ends_connection(self) -> bool {
        match self {
            HandleError::Internal(e) => e is EOFReached,
            HandleError::Io(e) => e.kind.disconnects(),
        }
    }

    /// Whether the error only says that the connection is over.
    pub fn closes(&self) -> (r: bool)
        ensures
            r == self.ends_connection(),
    {
        match self {
            HandleError::Internal(e) => *e == InternalError::EOFReached,
            HandleError::Io(e) => e.disconnects(),
        }
    }

    /// The error in words.
    pub open spec fn text(self) -> Seq<char> {
        match self {
            HandleError::Internal(e) => e.text(),
            HandleError::Io(e) => e.message@,
        }
    }

    /// The error in words.
    pub fn to_string(&self) -> (r: String)
        ensures
            r@ == self.text(),
    {
        match self {
            HandleError::Internal(e) => e.to_string(),
            HandleError::Io(e) => e.message.clone(),
        }
    }
}

/// The error that a failed read stands for: the end of the connection if the peer has
/// gone away, else the failure itself.
pub open spec fn read_error(e: IoError) -> HandleError {
    if e.kind.disconnects() {
        HandleError::Internal(InternalError::EOFReached)
    } else {
        HandleError::Io(e)
    }
}

/// Turns a failed read into the error that it stands for.
pub fn eof_err_helper<T>(e: IoError) -> (r: Result<T, HandleError>)
    ensures
        r == Err::<T, HandleError>(read_error(e)),
{
    match e.kind {
        IoErrorKind::BrokenPipe | IoErrorKind::ConnectionReset => {
            Err(HandleError::Internal(InternalError::EOFReached))
        },
        _ => Err(HandleError::Io(e)),
    }
}

/// The connection is over exactly when its end was reached or the peer is known to have gone
/// away; every other error is one.
pub proof fn law_ends_of_connection(e: HandleError)
    ensures
        e.ends_connection() <==> (e == HandleError::Internal(InternalError::EOFReached) || (
        e matches HandleError::Io(io) && io.kind != IoErrorKind::Other)),
        forall|kind: IoErrorKind| #[trigger]
            kind.disconnects() <==> kind == IoErrorKind::BrokenPipe || kind
                == IoErrorKind::ConnectionReset,
{
}

/// A failed read is the end of the connection exactly when the peer is known to have gone
/// away, and else is kept as it is.
pub proof fn law_failed_reads(e: IoError)
    ensures
        e.kind == IoErrorKind::Other ==> read_error(e) == HandleError::Io(e),
        e.kind != IoErrorKind::Other ==> read_error(e) == HandleError::Internal(
            InternalError::EOFReached,
        ),
{
}

/// What each error is called.
pub proof fn law_error_texts(e: IoError)
    ensures
        HandleError::Internal(InternalError::FormatError).text() == "format error"@,
        HandleError::Internal(InternalError::RequiredHeaderField).text()
            == "required header field is not provided"@,
        HandleError::Internal(InternalError::EOFReached).text()
            == "eof reached without expectation"@,
        HandleError::Internal(InternalError::Unknown).text() == "unknown error"@,
        HandleError::Io(e).text() == e.message@,
        forall|internal: InternalError| #[trigger]
            internal.text() == HandleError::Internal(internal).text(),
{
}

} // verus!
