//! One request's contribution to a download.
use vstd::prelude::*;

verus! {

/// Represents a download response containing optional length information and the data.
pub struct DownloadResponse {
    /// Total length as specified by Content-Length HTTP header,
    /// might not match the returned data length.
    pub length: Option<usize>,
    /// Raw response body bytes
    pub data: Vec<u8>,
}

/// A `DownloadResponse` as a plain value.
pub struct DownloadResponseView {
    pub length: Option<usize>,
    pub data: Seq<u8>,
}

impl View for DownloadResponse {
    type V = DownloadResponseView;

    open spec fn view(&self) -> DownloadResponseView {
        DownloadResponseView { length: self.length, data: self.data@ }
    }
}

} // verus!
