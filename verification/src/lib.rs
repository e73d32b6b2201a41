//! Execution of commands and recipes on groups of hosts: the configuration
//! format, the host lists, the command lines that reach each host, and the
//! decisions of a run over many hosts.
pub mod text;
pub mod pattern;
pub mod order;
pub mod config;
pub mod output;
pub mod cli;
pub mod execute;
pub mod session;
pub mod run;
