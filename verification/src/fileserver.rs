//! The file-supply server: which paths a session may see, how a request is
//! answered, and how a worker's outputs come back.

pub mod ops;
pub mod paths;
pub mod sessions;
pub mod writeback;

pub use paths::{normalize_requested, normalize_root, PathMap};
pub use ops::ServerStats;
