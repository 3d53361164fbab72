//! Failures of a single request/response exchange.
use vstd::prelude::*;
use vstd::std_specs::convert::FromSpecImpl;
use crate::text::{decimal_text, push_decimal};

verus! {

/// The kinds of transport failure that the client tells apart.
///
/// A read or write that exceeds its time bound is reported as `TimedOut` on
/// some systems and as `WouldBlock` on others.
#[derive(Debug, Clone, Copy, PartialEq, Eq, Structural)]
pub enum IoKind {
    TimedOut,
    WouldBlock,
    ConnectionRefused,
    ConnectionAborted,
    ConnectionReset,
    Other,
}

/// A failed socket operation: its kind and the system's description of it.
#[derive(Debug)]
pub struct IoFailure {
    pub kind: IoKind,
    pub message: String,
}

/// An `IoFailure` as a plain value.
pub struct IoFailureView {
    pub kind: IoKind,
    pub message: Seq<char>,
}

impl View for IoFailure {
    type V = IoFailureView;

    open spec fn view(&self) -> IoFailureView {
        IoFailureView { kind: self.kind, message: self.message@ }
    }
}

/// What a transport reports when an exchange did not complete: whether the
/// connection could not be opened, or a later read or write failed.
#[derive(Debug)]
pub enum TransportError {
    Connect(IoFailure),
    Transfer(IoFailure),
}

/// A `TransportError` as a plain value.
pub enum TransportErrorView {
    Connect(IoFailureView),
    Transfer(IoFailureView),
}

impl View for TransportError {
    type V = TransportErrorView;

    open spec fn view(&self) -> TransportErrorView {
        match self {
            TransportError::Connect(failure) => TransportErrorView::Connect(failure@),
            TransportError::Transfer(failure) => TransportErrorView::Transfer(failure@),
        }
    }
}

/// Possible HTTP client errors.
#[derive(Debug)]
pub enum HttpError {
    ConnectionFailed(IoFailure),
    Timeout,
    InvalidResponse,
    RequestFailed(u16),
    IoError(IoFailure),
}

/// An `HttpError` as a plain value.
pub enum HttpErrorView {
    ConnectionFailed(IoFailureView),
    Timeout,
    InvalidResponse,
    RequestFailed(u16),
    IoError(IoFailureView),
}

impl View for HttpError {
    type V = HttpErrorView;

    open spec fn view(&self) -> HttpErrorView {
        match self {
            HttpError::ConnectionFailed(failure) => HttpErrorView::ConnectionFailed(failure@),
            HttpError::Timeout => HttpErrorView::Timeout,
            HttpError::InvalidResponse => HttpErrorView::InvalidResponse,
            HttpError::RequestFailed(code) => HttpErrorView::RequestFailed(*code),
            HttpError::IoError(failure) => HttpErrorView::IoError(failure@),
        }
    }
}

/// The client error that stands for a failed socket operation: a read or
/// write that exceeded its time bound, reported in either of its two kinds,
/// is `Timeout`; a refused, aborted or reset connection is `ConnectionFailed`;
/// and anything else is `IoError`.
pub open spec fn classify(failure: IoFailureView) -> HttpErrorView {
    match failure.kind {
        IoKind::TimedOut | IoKind::WouldBlock => HttpErrorView::Timeout,
        IoKind::ConnectionRefused | IoKind::ConnectionAborted | IoKind::ConnectionReset =>
            HttpErrorView::ConnectionFailed(failure),
        IoKind::Other => HttpErrorView::IoError(failure),
    }
}

/// The client error that stands for an exchange that did not complete: a
/// connection that could not be opened is `ConnectionFailed` whatever its
/// kind; a later failure goes by its kind.
pub open spec fn transport_fault(error: TransportErrorView) -> HttpErrorView {
    match error {
        TransportErrorView::Connect(failure) => HttpErrorView::ConnectionFailed(failure),
        TransportErrorView::Transfer(failure) => classify(failure),
    }
}

/// The text that describes `error`.
pub open spec fn http_error_text(error: HttpErrorView) -> Seq<char> {
    match error {
        HttpErrorView::ConnectionFailed(failure) => "connection failed, IO error: "@
            + failure.message,
        HttpErrorView::Timeout => "connection timed out"@,
        HttpErrorView::InvalidResponse => "invalid HTTP response"@,
        HttpErrorView::RequestFailed(code) => "HTTP request failed with status "@ + decimal_text(
            code as nat,
        ),
        HttpErrorView::IoError(failure) => "IO error: "@ + failure.message,
    }
}

impl From<IoFailure> for HttpError {
    fn from(e: IoFailure) -> (error: HttpError)
        ensures
            error@ == classify(e@),
    {
        match e.kind {
            IoKind::TimedOut | IoKind::WouldBlock => HttpError::Timeout,
            IoKind::ConnectionRefused | IoKind::ConnectionAborted | IoKind::ConnectionReset =>
                HttpError::ConnectionFailed(e),
            IoKind::Other => HttpError::IoError(e),
        }
    }
}

impl FromSpecImpl<IoFailure> for HttpError {
    open spec fn obeys_from_spec() -> bool {
        true
    }

    open spec fn from_spec(e: IoFailure) -> HttpError {
        match e.kind {
            IoKind::TimedOut | IoKind::WouldBlock => HttpError::Timeout,
            IoKind::ConnectionRefused | IoKind::ConnectionAborted | IoKind::ConnectionReset =>
                HttpError::ConnectionFailed(e),
            IoKind::Other => HttpError::IoError(e),
        }
    }
}

impl HttpError {
    /// Turns what the transport reported into the client's error.
    pub fn from_transport(error: TransportError) -> (out: HttpError)
        ensures
            out@ == transport_fault(error@),
    {
        match error {
            TransportError::Connect(failure) => HttpError::ConnectionFailed(failure),
            TransportError::Transfer(failure) => HttpError::from(failure),
        }
    }

    /// Describes the error in words.
    pub fn message(&self) -> (text: String)
        ensures
            text@ == http_error_text(self@),
    {
        match self {
            HttpError::ConnectionFailed(failure) => {
                let mut text = "connection failed, IO error: ".to_owned();
                text.append(failure.message.as_str());
                text
            },
            HttpError::Timeout => "connection timed out".to_owned(),
            HttpError::InvalidResponse => "invalid HTTP response".to_owned(),
            HttpError::RequestFailed(code) => {
                let mut text = "HTTP request failed with status ".to_owned();
                push_decimal(&mut text, *code as usize);
                text
            },
            HttpError::IoError(failure) => {
                let mut text = "IO error: ".to_owned();
                text.append(failure.message.as_str());
                text
            },
        }
    }
}

} // verus!
