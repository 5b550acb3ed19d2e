//! Statistics over a shell's history file: per-invocation and per-command
//! frequency tables and a top-N ranking, built from the file's lines.

pub mod classify;
pub mod freq;
pub mod shell;
