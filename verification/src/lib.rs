//! pm3: a process manager. This crate holds the verified core that the daemon
//! and the command-line client share: the wire protocol and its encryption,
//! the start-request validator, process configuration files, the process
//! table that the daemon's runner keeps, log rotation and buffering, the
//! metrics records, and the client's parsing and formatting of replies.
use vstd::prelude::*;

pub mod text;
pub mod paths;
pub mod pm3_config;
pub mod config_validator;
pub mod encryption;
pub mod process;
pub mod runner;
pub mod commands;
pub mod logging;
pub mod metrics;
pub mod daemon_config;
pub mod status;
pub mod cli;
pub mod logview;
pub mod table;
pub mod monitor;
pub mod status_line;

verus! {

} // verus!
