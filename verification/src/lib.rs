//! SysWatch: a system monitoring agent answering commands over TCP, and the
//! console that drives agents. This crate holds the verified logic; reading the
//! operating system, running programs and network I/O are left to the caller.
pub mod binary64;
pub mod clock;
pub mod command;
pub mod load;
pub mod master;
pub mod model;
pub mod session;
pub mod snapshot;
pub mod text;
