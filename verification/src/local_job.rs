//! Local processes under guard: a job that holds every process which a command
//! starts, the monitor that hears of each of them, and the audit that tells when
//! none is left.

pub mod audit;
pub mod course;
pub mod guardian;
pub mod monitor;
pub mod run;
