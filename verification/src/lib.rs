//! A verified command-line adapter for a text-editor remote-control client.
//!
//! The library interprets an IDE-style argument vector into a list of file
//! targets (filename plus optional line/column position), builds the
//! equivalent argument list for the editor client, and decides how the
//! client's exit status maps back to this program's own outcome.  All of the
//! argument-interpretation and command-construction logic is verified; the
//! surrounding binary only gathers arguments, spawns the subprocess and
//! prints diagnostics.

pub mod args;
pub mod command;
pub mod laws;
pub mod num;
