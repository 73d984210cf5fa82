//! The structured side of a Gemini exchange: status codes and the response
//! header/content split. The network transport itself lives outside this
//! library; these types work on the bytes it hands over.

pub mod cert;
pub mod response;
pub mod status;

pub use cert::GermVerifier;
pub use response::Response;
pub use status::Status;
