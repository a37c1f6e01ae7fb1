//! Argument rewriting, destination parsing and command planning that let the
//! Zed editor work inside a Toolbx container through fake `ssh` and `sftp`
//! front ends.  Everything here is pure computation on plain values; the
//! program around it performs the process and file system work.
pub mod text;
pub mod error;
pub mod dest;
pub mod command;
pub mod ssh;
pub mod sftp;
pub mod zed;
pub mod container;
pub mod paths;
