//! The error type shared by every domain of the crate.
use vstd::prelude::*;

verus! {

/// What went wrong.
#[derive(Debug, Clone)]
pub enum NetworkError {
    NotAvailable,
    PermissionDenied,
    Timeout,
    CommandFailed(String),
    ParseError(String),
    IoError(String),
}

pub enum NetworkErrorView {
    NotAvailable,
    PermissionDenied,
    Timeout,
    CommandFailed(Seq<char>),
    ParseError(Seq<char>),
    IoError(Seq<char>),
}

impl View for NetworkError {
    type V = NetworkErrorView;

    open spec fn view(&self) -> NetworkErrorView {
        match self {
            NetworkError::NotAvailable => NetworkErrorView::NotAvailable,
            NetworkError::PermissionDenied => NetworkErrorView::PermissionDenied,
            NetworkError::Timeout => NetworkErrorView::Timeout,
            NetworkError::CommandFailed(s) => NetworkErrorView::CommandFailed(s@),
            NetworkError::ParseError(s) => NetworkErrorView::ParseError(s@),
            NetworkError::IoError(s) => NetworkErrorView::IoError(s@),
        }
    }
}

/// The kinds of I/O error the crate tells apart.
#[derive(Debug, Clone, Copy, PartialEq, Eq, Structural)]
pub enum IoErrorKind {
    PermissionDenied,
    TimedOut,
    NotFound,
    WouldBlock,
    Other,
}

#[verifier::external_type_specification]
#[verifier::external_body]
pub struct ExIoError(std::io::Error);

/// What `io::Error::kind` gives for an error, narrowed to the kinds the
/// crate tells apart; the kind is a property of the error alone.
pub uninterp spec fn io_kind_of(e: std::io::Error) -> IoErrorKind;

/// The kind of an I/O error (`io::Error::kind`), narrowed to the kinds the
/// crate tells apart.
#[verifier::external_body]
fn io_error_kind(err: &std::io::Error) -> (k: IoErrorKind)
    ensures
        k == io_kind_of(*err),
{
    match err.kind() {
        std::io::ErrorKind::PermissionDenied => IoErrorKind::PermissionDenied,
        std::io::ErrorKind::TimedOut => IoErrorKind::TimedOut,
        std::io::ErrorKind::NotFound => IoErrorKind::NotFound,
        std::io::ErrorKind::WouldBlock => IoErrorKind::WouldBlock,
        _ => IoErrorKind::Other,
    }
}

/// The message of an I/O error (`io::Error`'s `to_string`).
#[verifier::external_body]
fn io_error_text(err: &std::io::Error) -> String {
    err.to_string()
}

/// The error an I/O failure of the given kind and message becomes.
pub open spec fn spec_from_io_kind(kind: IoErrorKind, message: Seq<char>) -> NetworkErrorView {
    match kind {
        IoErrorKind::PermissionDenied => NetworkErrorView::PermissionDenied,
        IoErrorKind::TimedOut => NetworkErrorView::Timeout,
        _ => NetworkErrorView::IoError(message),
    }
}

/// The error a failure to start a program becomes: a missing program means
/// the tool is not available.
pub open spec fn spec_spawn_error(kind: IoErrorKind, message: Seq<char>) -> NetworkErrorView {
    if kind == IoErrorKind::NotFound {
        NetworkErrorView::NotAvailable
    } else {
        spec_from_io_kind(kind, message)
    }
}

impl NetworkError {
    /// Maps an I/O failure, given by its kind and message.
    pub fn from_io_kind(kind: IoErrorKind, message: String) -> (e: NetworkError)
        ensures
            e@ == spec_from_io_kind(kind, message@),
    {
        match kind {
            IoErrorKind::PermissionDenied => NetworkError::PermissionDenied,
            IoErrorKind::TimedOut => NetworkError::Timeout,
            _ => NetworkError::IoError(message),
        }
    }

    /// Maps an I/O error: permission and timeout errors keep their meaning,
    /// everything else becomes an `IoError` with the error's message.
    pub fn from_io(err: std::io::Error) -> (e: NetworkError)
        ensures
            exists|message: Seq<char>| e@ == spec_from_io_kind(io_kind_of(err), message),
    {
        let kind = io_error_kind(&err);
        let message = io_error_text(&err);
        NetworkError::from_io_kind(kind, message)
    }

    /// Maps a failure to start a program, given by its kind and message.
    pub fn from_spawn_kind(kind: IoErrorKind, message: String) -> (e: NetworkError)
        ensures
            e@ == spec_spawn_error(kind, message@),
    {
        if kind == IoErrorKind::NotFound {
            NetworkError::NotAvailable
        } else {
            NetworkError::from_io_kind(kind, message)
        }
    }

    /// Maps a failure to start a program: a missing program is
    /// `NotAvailable`, anything else as [`NetworkError::from_io`].
    pub fn from_spawn(err: std::io::Error) -> (e: NetworkError)
        ensures
            exists|message: Seq<char>| e@ == spec_spawn_error(io_kind_of(err), message),
    {
        let kind = io_error_kind(&err);
        let message = io_error_text(&err);
        NetworkError::from_spawn_kind(kind, message)
    }
}

/// The kind and message of an I/O error, for the decisions that tell
/// kinds apart.
pub fn io_error_parts(err: &std::io::Error) -> (r: (IoErrorKind, String))
    ensures
        r.0 == io_kind_of(*err),
{
    (io_error_kind(err), io_error_text(err))
}

} // verus!
