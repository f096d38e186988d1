//! The intake of the daemon: how a submitted action is admitted, run, cached and
//! answered.

pub mod admission;
pub mod answer;
pub mod pipe;
pub mod submission;
pub mod tools;
pub mod transport;

pub use admission::SubmitOptions;
pub use transport::{require_loopback, resolve_loopback_intake, LocalIntakeTransport};
