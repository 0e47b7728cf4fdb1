//! Synchronizes live configuration files ("dotfiles") with a tree of
//! versioned templates.  Templates are rendered with merged configuration
//! data and written to their live locations; a live file edited out-of-band
//! is never overwritten.
//!
//! The crate holds the synchronization engine itself: the bidirectional
//! mapping between template-tree paths and live dotfile paths, the
//! conflict-detection rule, the backup naming scheme, the configuration
//! merge, and the in-memory index of per-file last-known-good timestamps.
//! File and process I/O (reading and writing the files, running the editor)
//! is left to the embedding program.
pub mod backup;
pub mod config;
pub mod database;
pub mod engine;
pub mod errors;
pub mod jsondoc;
pub mod paths;
pub mod render;
pub mod sanitize;
pub mod text;
