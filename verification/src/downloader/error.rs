//! Failures of a whole download.
use vstd::prelude::*;
use vstd::std_specs::convert::FromSpecImpl;
use crate::http::error::{http_error_text, HttpError, HttpErrorView, IoFailure, IoFailureView};

verus! {

/// Possible errors that can occur during download operations.
#[derive(Debug)]
pub enum DownloadError {
    Http(HttpError),
    MissingLength,
    InvalidResponse(String),
    IoError(IoFailure),
}

/// A `DownloadError` as a plain value.
pub enum DownloadErrorView {
    Http(HttpErrorView),
    MissingLength,
    InvalidResponse(Seq<char>),
    IoError(IoFailureView),
}

impl View for DownloadError {
    type V = DownloadErrorView;

    open spec fn view(&self) -> DownloadErrorView {
        match self {
            DownloadError::Http(error) => DownloadErrorView::Http(error@),
            DownloadError::MissingLength => DownloadErrorView::MissingLength,
            DownloadError::InvalidResponse(reason) => DownloadErrorView::InvalidResponse(reason@),
            DownloadError::IoError(failure) => DownloadErrorView::IoError(failure@),
        }
    }
}

/// The text that describes `error`.
pub open spec fn download_error_text(error: DownloadErrorView) -> Seq<char> {
    match error {
        DownloadErrorView::Http(inner) => "HTTP error: "@ + http_error_text(inner),
        DownloadErrorView::MissingLength => "Server did not convey total length information"@,
        DownloadErrorView::InvalidResponse(reason) => "Invalid response: "@ + reason,
        DownloadErrorView::IoError(failure) => "IO error: "@ + failure.message,
    }
}

impl From<HttpError> for DownloadError {
    fn from(error: HttpError) -> (out: DownloadError)
        ensures
            out == DownloadError::Http(error),
    {
        DownloadError::Http(error)
    }
}

impl FromSpecImpl<HttpError> for DownloadError {
    open spec fn obeys_from_spec() -> bool {
        true
    }

    open spec fn from_spec(error: HttpError) -> DownloadError {
        DownloadError::Http(error)
    }
}

impl From<IoFailure> for DownloadError {
    fn from(error: IoFailure) -> (out: DownloadError)
        ensures
            out == DownloadError::IoError(error),
    {
        DownloadError::IoError(error)
    }
}

impl FromSpecImpl<IoFailure> for DownloadError {
    open spec fn obeys_from_spec() -> bool {
        true
    }

    open spec fn from_spec(error: IoFailure) -> DownloadError {
        DownloadError::IoError(error)
    }
}

impl DownloadError {
    /// Describes the error in words.
    pub fn message(&self) -> (text: String)
        ensures
            text@ == download_error_text(self@),
    {
        match self {
            DownloadError::Http(inner) => {
                let mut text = "HTTP error: ".to_owned();
                let detail = inner.message();
                text.append(detail.as_str());
                text
            },
            DownloadError::MissingLength => {
                "Server did not convey total length information".to_owned()
            },
            DownloadError::InvalidResponse(reason) => {
                let mut text = "Invalid response: ".to_owned();
                text.append(reason.as_str());
                text
            },
            DownloadError::IoError(failure) => {
                let mut text = "IO error: ".to_owned();
                text.append(failure.message.as_str());
                text
            },
        }
    }
}

} // verus!
