//! What can go wrong.
use vstd::prelude::*;

verus! {

/// `http`'s error for a text that is no header name.
#[verifier::external_type_specification]
#[verifier::external_body]
pub struct ExInvalidHeaderName(http::header::InvalidHeaderName);

/// `http`'s error for a text that is no header value.
#[verifier::external_type_specification]
#[verifier::external_body]
pub struct ExInvalidHeaderValue(http::header::InvalidHeaderValue);

/// `http`'s error for a header map that cannot grow any more.
#[verifier::external_type_specification]
#[verifier::external_body]
pub struct ExMaxSizeReached(http::header::MaxSizeReached);

/// `http`'s error for a header value with octets that are not visible ASCII.
#[verifier::external_type_specification]
#[verifier::external_body]
pub struct ExToStrError(http::header::ToStrError);

/// `url`'s error for a text that is no URL.
#[verifier::external_type_specification]
#[verifier::external_body]
pub struct ExUrlParseError(url::ParseError);

/// `mime`'s error for a text that is no media type.
#[verifier::external_type_specification]
#[verifier::external_body]
pub struct ExFromStrError(mime::FromStrError);

/// The standard library's error for a read that failed.
#[verifier::external_type_specification]
#[verifier::external_body]
pub struct ExIoError(std::io::Error);

/// The standard library's error for octets that are not UTF-8.
#[verifier::external_type_specification]
#[verifier::external_body]
pub struct ExUtf8Error(std::str::Utf8Error);

/// Why a request could not be built or a response could not be read.
#[derive(Debug)]
pub enum Error {
    /// A text is no header name.
    InvalidHeaderName(http::header::InvalidHeaderName),
    /// A text is no header value.
    InvalidHeaderValue(http::header::InvalidHeaderValue),
    /// There is no room for another header.
    TooManyHeaders(http::header::MaxSizeReached),
    /// A text is no URL.
    UrlParserError(url::ParseError),
    /// A multipart body could not be read.
    FileError(std::io::Error),
    /// A header value is not visible ASCII.
    ToStringError(http::header::ToStrError),
    /// A header does not hold what is needed of it.
    HeaderParseError(String),
    /// A text is no media type.
    MimeParseError(mime::FromStrError),
    /// Octets are not UTF-8.
    Utf8Error(std::str::Utf8Error),
}

/// Which [`Error`] it is. The details that the outside crates put into theirs
/// are left out; a message of this crate's own is kept.
pub enum ErrorView {
    InvalidHeaderName,
    InvalidHeaderValue,
    TooManyHeaders,
    UrlParserError,
    FileError,
    ToStringError,
    HeaderParseError(Seq<char>),
    MimeParseError,
    Utf8Error,
}

impl View for Error {
    type V = ErrorView;

    open spec fn view(&self) -> ErrorView {
        match self {
            Error::InvalidHeaderName(_) => ErrorView::InvalidHeaderName,
            Error::InvalidHeaderValue(_) => ErrorView::InvalidHeaderValue,
            Error::TooManyHeaders(_) => ErrorView::TooManyHeaders,
            Error::UrlParserError(_) => ErrorView::UrlParserError,
            Error::FileError(_) => ErrorView::FileError,
            Error::ToStringError(_) => ErrorView::ToStringError,
            Error::HeaderParseError(message) => ErrorView::HeaderParseError(message@),
            Error::MimeParseError(_) => ErrorView::MimeParseError,
            Error::Utf8Error(_) => ErrorView::Utf8Error,
        }
    }
}

/// Which error it was, if any.
pub open spec fn failure(r: Result<(), Error>) -> Option<ErrorView> {
    match r {
        Ok(_) => None,
        Err(e) => Some(e@),
    }
}

} // verus!
