// SPDX-License-Identifier: AGPL-3.0-or-later
//! Persistence as JSON text.

use vstd::prelude::*;
use vstd::string::StringExecFns;

verus! {

/// Why saving or loading a notebook failed. Each case carries the detail
/// that the host reported, as text.
#[derive(Debug)]
pub enum StorageError {
    /// Reading or writing failed.
    Io(String),
    /// What was read is not a stored notebook, or the notebook could not be
    /// written as JSON.
    Json(String),
    /// Nothing stands at the path that was to be loaded.
    NotFound(String),
}

impl StorageError {
    /// What the error says, in words.
    pub open spec fn message_text(self) -> Seq<char> {
        match self {
            StorageError::Io(detail) => "IO error: "@ + detail@,
            StorageError::Json(detail) => "JSON serialization error: "@ + detail@,
            StorageError::NotFound(path) => "File not found: "@ + path@,
        }
    }

    /// What the error says, in words.
    pub fn message(&self) -> (text: String)
        ensures
            text@ == self.message_text(),
    {
        match self {
            StorageError::Io(detail) => "IO error: ".to_owned().concat(detail.as_str()),
            StorageError::Json(detail) => "JSON serialization error: ".to_owned().concat(
                detail.as_str(),
            ),
            StorageError::NotFound(path) => "File not found: ".to_owned().concat(path.as_str()),
        }
    }
}

/// Names the storage that keeps a notebook as one JSON document per file.
/// Reading and writing the file is the host's part; the notes that were read
/// become a notebook again through `Notebook::from_notes`.
#[derive(Debug, Clone, Copy, PartialEq, Eq)]
pub struct JsonStorage;

impl JsonStorage {
    /// The JSON storage; it holds no state of its own.
    pub fn new() -> (storage: JsonStorage)
        ensures
            storage == JsonStorage,
    {
        JsonStorage
    }
}

impl Default for JsonStorage {
    fn default() -> (storage: JsonStorage)
        ensures
            storage == JsonStorage,
    {
        JsonStorage::new()
    }
}

} // verus!
