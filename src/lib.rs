//! A small HTTP/1.1 client core: request framing, CONNECT-tunnel
//! negotiation and response parsing, with the socket work left to callers.

pub mod endpoint;
pub mod error;
pub mod headers;
pub mod method;
pub mod proxy;
pub mod request;
pub mod response;
pub mod text;
pub mod tunnel;

pub use endpoint::{Endpoint, HostAddress};
pub use error::HttpError;
pub use headers::Headers;
pub use method::Method;
pub use proxy::Proxy;
pub use request::Request;
pub use response::Response;
pub use tunnel::{TunnelHandshake, TunnelStep};
