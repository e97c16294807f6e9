//! A verified core for a line-oriented text-search tool: pattern
//! compilation, per-line matching, file-content scanning, result
//! reconciliation and report rendering. Reading files, spawning workers and
//! printing stay outside; this crate states and proves what each step
//! computes.

pub mod matcher;
pub mod report;
pub mod scanner;
