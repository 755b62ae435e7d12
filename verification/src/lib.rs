//! Resolution of the effective client-facing connection attributes (scheme,
//! host, client address) for an HTTP request that may have passed through
//! reverse proxies, following RFC 7239 `Forwarded` semantics with fallback to
//! the legacy `X-Forwarded-*` headers, the request line, and application
//! defaults.

pub mod forwarded;
pub mod info;
pub mod laws;
pub mod text;

pub use info::AppConfig;
pub use info::ConnectionInfo;
pub use info::MissingPeerAddr;
pub use info::RequestHead;
pub use info::first_header_value;
pub use info::peer_address;
pub use text::unquote;
