//! A small HTTP web framework: a route tree with parameter segments,
//! request parsing, and response assembly.
pub mod status_code;
pub mod response;
pub mod text;
pub mod method;
pub mod router;
pub mod params;
pub mod external;
pub mod context;
pub mod request;
pub mod handler;
pub mod dispatch;
pub mod server;
pub mod rum;
