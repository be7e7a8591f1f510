//! Turns a line-oriented quality-control report into a Markdown checklist.
//!
//! A report names one finding per line: a timecode, a category and a
//! comment. The library parses the report ([`parser`]), looks up the
//! dialogue lines that were on screen at each timecode ([`subs`],
//! [`references`]), groups the findings by category ([`groups`]) and writes
//! them as a checklist ([`render`]). [`checklist`] runs these steps in one
//! call; [`editor`] holds the state of the prompt in which the result can be
//! edited.

pub mod checklist;
pub mod config;
pub mod editor;
pub mod groups;
pub mod order;
pub mod parser;
pub mod qc_issue;
pub mod references;
pub mod render;
pub mod seqs;
pub mod subs;
pub mod text;
pub mod timecode;
