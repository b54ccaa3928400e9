//! Structured lifecycle-event logging for smart-function invocations.
//!
//! A small closed set of request-lifecycle events, a canonical textual
//! encoding for each, and a line-oriented framing convention that lets a
//! log consumer extract these events from a shared debug stream.

pub mod escape;
pub mod bridge;
pub mod request_logger;

pub use bridge::BootstrapAccount;
pub use bridge::BridgeContract;
pub use request_logger::Address;
pub use request_logger::RequestEvent;
pub use request_logger::log_request_end;
pub use request_logger::log_request_start;
