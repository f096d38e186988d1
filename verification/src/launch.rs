//! Starting a process on Windows: the command line, the environment, and the
//! program that a command names.

pub mod batch;
pub mod environment;
pub mod program;
pub mod quoting;

pub use batch::make_batch_command_line;
pub use environment::{environment_value, overlay_environment, validate_environment_entry};
pub use quoting::{quote_windows_arg, quote_windows_argv};
pub use program::{prepare_caller_launch, resolve_caller_program, CallerLaunch};
