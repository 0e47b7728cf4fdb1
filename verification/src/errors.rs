//! The error vocabulary of the synchronization engine.
use vstd::prelude::*;
use crate::text::{append_str, chars_string};

verus! {

/// Everything a synchronization operation can report.
#[derive(Debug)]
pub enum SyncError {
    /// The path is not a live dotfile: it lies outside the home root, or its
    /// name relative to the home root does not start with `.`.
    NotADotfile { path: String, home: String },
    /// The live file was modified after its last recorded synchronization;
    /// rendering would clobber the user's edit.
    FileNewerThanTemplate { path: String },
    /// An index operation named a destination that is not managed.
    UnknownEntry { path: String },
    /// A configuration document is not valid JSON.
    JsonConfig { path: String },
    /// A configuration document is valid JSON but not a JSON object.
    NotAnObject,
    /// The templating engine rejected the template or its data.
    RenderError { detail: String },
    /// The file to back up has no final name component.
    NoFileName,
    /// The index backing file holds malformed JSON.
    IndexCorrupt,
    /// The index backing file could not be opened or read.
    IndexUnavailable,
    /// The index backing file could not be written.
    IndexWriteError,
    /// Any other I/O failure, with a short description.
    Io { detail: String },
}

impl SyncError {
    /// What `message` returns, spelled out.
    pub open spec fn message_spec(&self) -> Seq<char> {
        match self {
            SyncError::NotADotfile { path, home } => "not a dotfile under "@ + home@ + ": "@
                + path@,
            SyncError::FileNewerThanTemplate { path } => "file is newer than its template: "@
                + path@,
            SyncError::UnknownEntry { path } => "path not managed by the index: "@ + path@,
            SyncError::JsonConfig { path } => "could not load JSON configuration file: "@ + path@,
            SyncError::NotAnObject => "config documents are not JSON objects"@,
            SyncError::RenderError { detail } => "could not render template: "@ + detail@,
            SyncError::NoFileName => "no file name on file to back up"@,
            SyncError::IndexCorrupt => "index file holds malformed JSON"@,
            SyncError::IndexUnavailable => "index file could not be read"@,
            SyncError::IndexWriteError => "index file could not be written"@,
            SyncError::Io { detail } => "I/O error: "@ + detail@,
        }
    }

    /// A short description of the error, for the embedding program to show.
    pub fn message(&self) -> (r: String)
        ensures
            r@ == self.message_spec(),
    {
        let mut out: Vec<char> = Vec::new();
        match self {
            SyncError::NotADotfile { path, home } => {
                append_str(&mut out, "not a dotfile under ");
                append_str(&mut out, home.as_str());
                append_str(&mut out, ": ");
                append_str(&mut out, path.as_str());
            },
            SyncError::FileNewerThanTemplate { path } => {
                append_str(&mut out, "file is newer than its template: ");
                append_str(&mut out, path.as_str());
            },
            SyncError::UnknownEntry { path } => {
                append_str(&mut out, "path not managed by the index: ");
                append_str(&mut out, path.as_str());
            },
            SyncError::JsonConfig { path } => {
                append_str(&mut out, "could not load JSON configuration file: ");
                append_str(&mut out, path.as_str());
            },
            SyncError::NotAnObject => {
                append_str(&mut out, "config documents are not JSON objects");
            },
            SyncError::RenderError { detail } => {
                append_str(&mut out, "could not render template: ");
                append_str(&mut out, detail.as_str());
            },
            SyncError::NoFileName => {
                append_str(&mut out, "no file name on file to back up");
            },
            SyncError::IndexCorrupt => {
                append_str(&mut out, "index file holds malformed JSON");
            },
            SyncError::IndexUnavailable => {
                append_str(&mut out, "index file could not be read");
            },
            SyncError::IndexWriteError => {
                append_str(&mut out, "index file could not be written");
            },
            SyncError::Io { detail } => {
                append_str(&mut out, "I/O error: ");
                append_str(&mut out, detail.as_str());
            },
        }
        chars_string(&out)
    }
}

} // verus!
