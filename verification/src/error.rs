//! Errors of the library's operations.
use vstd::prelude::*;

verus! {

/// What went wrong in talking to rtorrent or in finding a torrent.
#[derive(Debug)]
pub enum Error {
    /// The transport or the reply's shape was not what was expected.
    Scgi(String),
    /// rtorrent answered with a JSON-RPC error object.
    Rpc { code: i64, message: String },
    /// No torrent hash starts with the given prefix.
    NoMatch(String),
    /// More than one torrent hash starts with the given prefix.
    AmbiguousMatch(String),
}

/// An [`Error`] with its texts taken as character sequences.
pub enum ErrorView {
    Scgi(Seq<char>),
    Rpc { code: i64, message: Seq<char> },
    NoMatch(Seq<char>),
    AmbiguousMatch(Seq<char>),
}

impl View for Error {
    type V = ErrorView;

    open spec fn view(&self) -> ErrorView {
        match self {
            Error::Scgi(s) => ErrorView::Scgi(s@),
            Error::Rpc { code, message } => ErrorView::Rpc { code: *code, message: message@ },
            Error::NoMatch(s) => ErrorView::NoMatch(s@),
            Error::AmbiguousMatch(s) => ErrorView::AmbiguousMatch(s@),
        }
    }
}

} // verus!
