//! What can go wrong while messages are read, written and handled.

use vstd::prelude::*;
use vstd::string::*;

verus! {

#[derive(Debug)]
pub enum Error {
    Unexpected { err_msg: String },
    PlainText { msg: String },
    Io { reason: String },
    InvalidHeaderUtf8 { source: String },
    InvalidContentLength,
    MissingContentLength,
    InvalidJson,
}

pub enum ErrorView {
    Unexpected(Seq<char>),
    PlainText(Seq<char>),
    Io(Seq<char>),
    InvalidHeaderUtf8(Seq<char>),
    InvalidContentLength,
    MissingContentLength,
    InvalidJson,
}

impl View for Error {
    type V = ErrorView;

    open spec fn view(&self) -> ErrorView {
        match self {
            Error::Unexpected { err_msg } => ErrorView::Unexpected(err_msg@),
            Error::PlainText { msg } => ErrorView::PlainText(msg@),
            Error::Io { reason } => ErrorView::Io(reason@),
            Error::InvalidHeaderUtf8 { source } => ErrorView::InvalidHeaderUtf8(source@),
            Error::InvalidContentLength => ErrorView::InvalidContentLength,
            Error::MissingContentLength => ErrorView::MissingContentLength,
            Error::InvalidJson => ErrorView::InvalidJson,
        }
    }
}

impl ErrorView {
    /// What the user is told.
    pub open spec fn message(self) -> Seq<char> {
        match self {
            ErrorView::Unexpected(detail) => "unexpected, err: "@ + detail,
            ErrorView::PlainText(text) => text,
            ErrorView::Io(reason) => "io error, "@ + reason,
            ErrorView::InvalidHeaderUtf8(source) => "invalid utf-8 in lsp headers: "@ + source,
            ErrorView::InvalidContentLength => "invalid Content-Length value"@,
            ErrorView::MissingContentLength => "missing Content-Length header"@,
            ErrorView::InvalidJson => "invalid json"@,
        }
    }
}

impl Error {
    /// The text that stands for the error in front of a user.
    pub fn message(&self) -> (text: String)
        ensures
            text@ == self@.message(),
    {
        match self {
            Error::Unexpected { err_msg } => "unexpected, err: ".to_string().concat(
                err_msg.as_str(),
            ),
            Error::PlainText { msg } => msg.clone(),
            Error::Io { reason } => "io error, ".to_string().concat(reason.as_str()),
            Error::InvalidHeaderUtf8 { source } => "invalid utf-8 in lsp headers: ".to_string().concat(
                source.as_str(),
            ),
            Error::InvalidContentLength => "invalid Content-Length value".to_string(),
            Error::MissingContentLength => "missing Content-Length header".to_string(),
            Error::InvalidJson => "invalid json".to_string(),
        }
    }
}

/// The user is told the plain text of an error as it is, and of any other what went wrong in words,
/// with what is known of it behind them.
pub proof fn law_error_is_told_with_its_detail(detail: Seq<char>)
    ensures
        ErrorView::PlainText(detail).message() == detail,
        ErrorView::Unexpected(detail).message() == "unexpected, err: "@ + detail,
        ErrorView::Io(detail).message() == "io error, "@ + detail,
        ErrorView::InvalidHeaderUtf8(detail).message() == "invalid utf-8 in lsp headers: "@
            + detail,
{
}

} // verus!
