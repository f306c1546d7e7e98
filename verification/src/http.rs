//! Requests and responses as they stand on the wire.

pub mod method;
pub mod request;
pub mod response;
pub mod status;

pub use method::Method;
pub use request::Missing;
pub use request::Request;
pub use response::Response;
pub use status::status_reason;
