//! Verified core of the Sembazuru build agent.

pub mod action_cache;
pub mod action_tracker;
pub mod command;
pub mod config;
pub mod coordination;
pub mod digest;
pub mod env_filter;
pub mod execution;
pub mod failure;
pub mod filepath;
pub mod fileserver;
pub mod intake;
pub mod keyed;
pub mod launch;
pub mod launcher;
pub mod local_job;
pub mod order;
pub mod text;
pub mod utf16;

pub use action_tracker::ActionObserver;
pub use execution::{
    ActionOutcome, ConnectPolicy, ExecOptions, ExecuteError, Execution, LocalFallbackReason,
};
