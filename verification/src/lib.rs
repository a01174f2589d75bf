//! An interactive command shell core: a key-event-driven line editor with
//! history recall and filename completion, feeding a pipeline builder that
//! resolves executables and plans the wiring of standard input/output across
//! the stages of a command pipeline.
//!
//! All terminal, file-system and process I/O lives outside this crate; the
//! library works on plain values (strings, entry listings, probe results)
//! handed in by its caller and returns the decisions it has made.

pub mod errors;
pub mod strutil;
pub mod history;
pub mod shell;
pub mod autocomplete;
pub mod pipeline;
