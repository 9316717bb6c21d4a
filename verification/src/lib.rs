//! Decision logic of a tool that runs a local program inside a sandbox that looks like a
//! remote Linux host: what is parsed, which commands are built, what is mounted where, and in
//! which order things happen. Everything here maps plain values to plain values; running
//! processes and touching the file system is left to the program around it.
pub mod bwrap;
pub mod config;
pub mod decimal;
pub mod error;
pub mod names;
pub mod os_text;
pub mod path;
pub mod probe;
pub mod runtime;
pub mod sandbox;
pub mod session;
pub mod shell;
pub mod staging;
pub mod targets;
pub mod text;
pub mod transfer;
pub mod util;
pub mod wrapper;
