// SPDX-License-Identifier: AGPL-3.0-or-later
//! Nexia Core - Knowledge graph engine
//!
//! The data structures and operations of a personal knowledge base: notes,
//! the notebook that owns them and links them, and the rules that keep the
//! forward links and the reverse index in step.

use vstd::prelude::*;

pub mod attributes;
pub mod clock;
pub mod commands;
pub mod graph;
pub mod ident;
pub mod note;
pub mod notebook;
pub mod storage;
pub mod text;

pub use attributes::Attributes;
pub use clock::Timestamp;
pub use graph::NotebookView;
pub use ident::NoteId;
pub use note::{Note, NoteView, Point2D};
pub use notebook::{Notebook, NotebookError};
pub use storage::{JsonStorage, StorageError};

verus! {

/// Library version
pub const VERSION: &'static str = "0.1.0";

} // verus!
