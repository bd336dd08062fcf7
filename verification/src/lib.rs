//! Connect-style RPC core: wire encoding, error mapping, server dispatch and
//! client-side decoding, independent of any HTTP runtime.
pub mod base64;
pub mod bridge_hyper;
pub mod bridge_reqwest;
pub mod client;
pub mod codes;
pub mod conformance;
pub mod conformance_official;
pub mod content;
pub mod context;
pub mod deadline;
pub mod decimal;
pub mod dispatch;
pub mod framing;
pub mod gzip;
pub mod headers;
pub mod incoming;
pub mod interceptors;
pub mod json;
pub mod message;
pub mod order;
pub mod outgoing;
pub mod protocol;
pub mod reply;
pub mod server;
pub mod stream;
pub mod text;
pub mod trailers;
pub mod wire_error;
