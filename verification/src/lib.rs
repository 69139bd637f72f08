//! Terminal input forwarding and host platform support for a terminal
//! multiplexer.
//!
//! The library holds the decisions: which bytes go to the server, which
//! process is in the foreground, which command line ends a process. The
//! code around it performs the system calls those decisions ask for and
//! hands the outcomes back as plain values.

pub mod client;
pub mod platform;
