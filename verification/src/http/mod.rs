pub mod client;
pub mod error;
pub mod response;
pub mod roundtrip;
pub mod wire;

pub use client::HttpClient;
pub use error::{HttpError, IoFailure, IoKind, TransportError};
pub use response::HttpResponse;
