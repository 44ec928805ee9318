//! Process and session lifecycle core of a desktop shell.
//!
//! The crate models the two components with real lifecycle logic — a
//! terminal-session manager that multiplexes interactive shells onto a
//! bounded-latency output stream, and a sidecar supervisor that starts,
//! monitors and gracefully stops named child processes — together with the
//! text parsing the surrounding application needs.  Everything operating on
//! OS resources (pseudo-terminals, processes, threads, the file system) is
//! driven by a thin unverified layer that feeds plain values in and carries
//! the decisions out.

pub mod text;

pub mod pipe;

pub mod pty;

pub mod sidecar;

pub mod types;

pub mod watcher;

pub mod paths;

pub mod config;

pub mod resolve;

pub mod envfile;

pub mod gitlog;

pub mod seedfile;


