pub mod client;
pub mod error;
pub mod plan;
pub mod response;
pub mod url;

pub use client::Downloader;
pub use error::DownloadError;
pub use response::DownloadResponse;
