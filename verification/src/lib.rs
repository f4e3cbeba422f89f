//! A job queue kept in a directory: job names, exec lines, and the decisions that the
//! `nq`, `nqtail` and `nqterm` commands take between their system calls.
pub mod cli;
pub mod daemon;
pub mod daemon_run;
pub mod dir;
pub mod enqueue;
pub mod exec;
pub mod follow;
pub mod job;
pub mod line;
pub mod numeral;
pub mod order;
pub mod shell;
pub mod spool;
pub mod status;
pub mod system;
pub mod term;
pub mod text;
pub mod utf8;
pub mod wait;
