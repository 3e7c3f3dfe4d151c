// SPDX-License-Identifier: AGPL-3.0-or-later
//! What the host's commands do to a notebook, and what they answer.
//!
//! Each command takes the notebook and plain values, so that the host only
//! has to hold the state, take the lock and pass the answer on. Note
//! identifiers arrive as text. A command that reads one comes in two
//! forms: the one named after the command takes the text, the one whose
//! name ends in `by_id` takes what the text was read as.

use vstd::prelude::*;
use crate::graph::NotebookView;
use crate::ident::{parse_note_id, parsed_uuid, NoteId};
use crate::note::{Note, NoteView};
use crate::notebook::{listed_views, owned_views, Notebook, NotebookError};
use crate::storage::StorageError;

verus! {

/// The answer to a command: the data on success, a message on failure.
#[derive(Debug)]
pub struct CommandResponse<T> {
    pub success: bool,
    pub data: Option<T>,
    pub error: Option<String>,
}

impl<T> CommandResponse<T> {
    /// The answer is a failure with the given message.
    pub open spec fn failed_with(self, message: Seq<char>) -> bool {
        &&& !self.success
        &&& self.data is None
        &&& self.error matches Some(text) && text@ == message
    }

    /// The answer is a success; what it carries is in `data`.
    pub open spec fn succeeded(self) -> bool {
        self.success && self.data is Some && self.error is None
    }

    /// The successful answer that carries `data`.
    pub fn ok(data: T) -> (response: Self)
        ensures
            response.succeeded(),
            response.data == Some(data),
    {
        CommandResponse { success: true, data: Some(data), error: None }
    }

    /// The failed answer with the given message.
    pub fn err(message: &str) -> (response: Self)
        ensures
            response.failed_with(message@),
    {
        CommandResponse { success: false, data: None, error: Some(message.to_owned()) }
    }
}

/// `response` answers a request for the note under `id` in `book`.
pub open spec fn answers_get(
    book: NotebookView,
    id: Option<NoteId>,
    response: CommandResponse<Note>,
) -> bool {
    match id {
        None => response.failed_with("Invalid note ID"@),
        Some(key) => if book.notes.contains_key(key) {
            response.succeeded() && response.data->0@ == book.notes[key]
        } else {
            response.failed_with("Note not found"@)
        },
    }
}

/// `response` answers a request to change the note under `id`, where the
/// change makes `changed` of the note: `after` is what the request made of
/// `before`.
pub open spec fn answers_update(
    before: NotebookView,
    after: NotebookView,
    id: Option<NoteId>,
    changed: spec_fn(NoteView) -> NoteView,
    response: CommandResponse<Note>,
) -> bool {
    match id {
        None => response.failed_with("Invalid note ID"@) && after == before,
        Some(key) => if before.notes.contains_key(key) {
            &&& response.succeeded()
            &&& response.data->0@ == changed(before.notes[key]).touched(
                response.data->0.modified_at,
            )
            &&& after == before.with_edited(key, response.data->0@, after.modified_at)
        } else {
            response.failed_with("Note not found"@) && after == before.touched(after.modified_at)
        },
    }
}

/// `response` answers a request to delete the note under `id`: `after` is
/// what the request made of `before`.
pub open spec fn answers_delete(
    before: NotebookView,
    after: NotebookView,
    id: Option<NoteId>,
    response: CommandResponse<()>,
) -> bool {
    match id {
        None => response.failed_with("Invalid note ID"@) && after == before,
        Some(key) => if before.notes.contains_key(key) {
            response.succeeded() && after == before.without_note(key, after.modified_at)
        } else {
            response.failed_with("Note not found"@) && after == before
        },
    }
}

/// `response` answers a request to link the note under `from` to the note
/// under `to`: `after` is what the request made of `before`.
pub open spec fn answers_link(
    before: NotebookView,
    after: NotebookView,
    from: Option<NoteId>,
    to: Option<NoteId>,
    response: CommandResponse<()>,
) -> bool {
    match (from, to) {
        (None, _) => response.failed_with("Invalid source note ID"@) && after == before,
        (Some(_), None) => response.failed_with("Invalid target note ID"@) && after == before,
        (Some(from), Some(to)) => if !before.notes.contains_key(from) {
            response.failed_with(NotebookError::NoteNotFound(from).message_text()) && after
                == before
        } else if !before.notes.contains_key(to) {
            response.failed_with(NotebookError::NoteNotFound(to).message_text()) && after
                == before
        } else {
            response.succeeded() && after == before.linked(from, to, after.modified_at)
        },
    }
}

/// Copies of the listed notes, in the same order.
fn copies(list: &Vec<&Note>) -> (notes: Vec<Note>)
    ensures
        owned_views(notes@) == listed_views(list@),
{
    let mut notes: Vec<Note> = Vec::new();
    let mut i: usize = 0;
    while i < list.len()
        invariant
            i <= list.len(),
            notes@.len() == i,
            forall|k: int| 0 <= k < i ==> (#[trigger] notes@[k])@ == list@[k]@,
        decreases list.len() - i,
    {
        notes.push(list[i].clone());
        i += 1;
    }
    assert(owned_views(notes@) =~= listed_views(list@));
    notes
}

/// Makes a note with the given title, puts it into the notebook and answers
/// with a copy of it.
pub fn create_note(notebook: &mut Notebook, title: &str) -> (response: CommandResponse<Note>)
    ensures
        response.succeeded(),
        response.data->0@ == NoteView::fresh(
            response.data->0.id,
            title@,
            response.data->0.created_at,
        ),
        final(notebook)@ == old(notebook)@.with_note(
            response.data->0@,
            final(notebook)@.modified_at,
        ),
        old(notebook)@.wf() ==> final(notebook)@.wf(),
        old(notebook)@.consistent() ==> final(notebook)@.consistent(),
{
    let note = Note::new(title);
    let id = note.id;
    notebook.add_note(note);
    match notebook.get_note(&id) {
        Some(note) => CommandResponse::ok(note.clone()),
        None => CommandResponse::err("Failed to create note"),
    }
}

/// Answers with a copy of the note under `id`; `None` stands for a text
/// that is no identifier.
pub fn get_note_by_id(notebook: &Notebook, id: Option<NoteId>) -> (response: CommandResponse<
    Note,
>)
    ensures
        answers_get(notebook@, id, response),
{
    let key = match id {
        Some(key) => key,
        None => {
            return CommandResponse::err("Invalid note ID");
        },
    };
    match notebook.get_note(&key) {
        Some(note) => CommandResponse::ok(note.clone()),
        None => CommandResponse::err("Note not found"),
    }
}

/// Answers with a copy of the note that `id` names.
pub fn get_note(notebook: &Notebook, id: &str) -> (response: CommandResponse<Note>)
    ensures
        answers_get(notebook@, parsed_uuid(id@), response),
{
    get_note_by_id(notebook, parse_note_id(id))
}

/// Answers with copies of all notes, in no particular order.
pub fn get_all_notes(notebook: &Notebook) -> (response: CommandResponse<Vec<Note>>)
    ensures
        response.succeeded(),
        notebook@.listed_by(owned_views(response.data->0@)),
{
    let listed = notebook.all_notes();
    CommandResponse::ok(copies(&listed))
}

/// Gives the note under `id` a new title and answers with a copy of the
/// note; `None` stands for a text that is no identifier. The notebook's
/// time of change moves on whenever there is an identifier, also when no
/// note stands under it.
pub fn update_note_title_by_id(
    notebook: &mut Notebook,
    id: Option<NoteId>,
    title: String,
) -> (response: CommandResponse<Note>)
    ensures
        answers_update(
            old(notebook)@,
            final(notebook)@,
            id,
            |note: NoteView| NoteView { title: title@, ..note },
            response,
        ),
        old(notebook)@.wf() ==> final(notebook)@.wf(),
        old(notebook)@.consistent() ==> final(notebook)@.consistent(),
{
    let key = match id {
        Some(key) => key,
        None => {
            return CommandResponse::err("Invalid note ID");
        },
    };
    match notebook.get_note_mut(&key) {
        Some(note) => {
            note.title = title;
            note.touch();
            CommandResponse::ok(note.clone())
        },
        None => CommandResponse::err("Note not found"),
    }
}

/// Gives the note that `id` names a new title and answers with a copy of
/// the note.
pub fn update_note_title(notebook: &mut Notebook, id: &str, title: String) -> (response:
    CommandResponse<Note>)
    ensures
        answers_update(
            old(notebook)@,
            final(notebook)@,
            parsed_uuid(id@),
            |note: NoteView| NoteView { title: title@, ..note },
            response,
        ),
        old(notebook)@.wf() ==> final(notebook)@.wf(),
        old(notebook)@.consistent() ==> final(notebook)@.consistent(),
{
    update_note_title_by_id(notebook, parse_note_id(id), title)
}

/// Gives the note under `id` a new content and answers with a copy of the
/// note; `None` stands for a text that is no identifier. The notebook's
/// time of change moves on whenever there is an identifier, also when no
/// note stands under it.
pub fn update_note_content_by_id(
    notebook: &mut Notebook,
    id: Option<NoteId>,
    content: String,
) -> (response: CommandResponse<Note>)
    ensures
        answers_update(
            old(notebook)@,
            final(notebook)@,
            id,
            |note: NoteView| NoteView { content: content@, ..note },
            response,
        ),
        old(notebook)@.wf() ==> final(notebook)@.wf(),
        old(notebook)@.consistent() ==> final(notebook)@.consistent(),
{
    let key = match id {
        Some(key) => key,
        None => {
            return CommandResponse::err("Invalid note ID");
        },
    };
    match notebook.get_note_mut(&key) {
        Some(note) => {
            note.content = content;
            note.touch();
            CommandResponse::ok(note.clone())
        },
        None => CommandResponse::err("Note not found"),
    }
}

/// Gives the note that `id` names a new content and answers with a copy of
/// the note.
pub fn update_note_content(notebook: &mut Notebook, id: &str, content: String) -> (response:
    CommandResponse<Note>)
    ensures
        answers_update(
            old(notebook)@,
            final(notebook)@,
            parsed_uuid(id@),
            |note: NoteView| NoteView { content: content@, ..note },
            response,
        ),
        old(notebook)@.wf() ==> final(notebook)@.wf(),
        old(notebook)@.consistent() ==> final(notebook)@.consistent(),
{
    update_note_content_by_id(notebook, parse_note_id(id), content)
}

/// Takes the note under `id` out of the notebook, with every reference to
/// it; `None` stands for a text that is no identifier.
pub fn delete_note_by_id(notebook: &mut Notebook, id: Option<NoteId>) -> (response:
    CommandResponse<()>)
    ensures
        answers_delete(old(notebook)@, final(notebook)@, id, response),
        old(notebook)@.wf() ==> final(notebook)@.wf(),
        old(notebook)@.consistent() ==> final(notebook)@.consistent(),
{
    let key = match id {
        Some(key) => key,
        None => {
            return CommandResponse::err("Invalid note ID");
        },
    };
    match notebook.remove_note(&key) {
        Some(_) => CommandResponse::ok(()),
        None => CommandResponse::err("Note not found"),
    }
}

/// Takes the note that `id` names out of the notebook, with every
/// reference to it.
pub fn delete_note(notebook: &mut Notebook, id: &str) -> (response: CommandResponse<()>)
    ensures
        answers_delete(old(notebook)@, final(notebook)@, parsed_uuid(id@), response),
        old(notebook)@.wf() ==> final(notebook)@.wf(),
        old(notebook)@.consistent() ==> final(notebook)@.consistent(),
{
    delete_note_by_id(notebook, parse_note_id(id))
}

/// Links the note under `from` to the note under `to`; `None` stands for a
/// text that is no identifier, and a bad source is reported before a bad
/// target.
pub fn link_notes_by_id(
    notebook: &mut Notebook,
    from: Option<NoteId>,
    to: Option<NoteId>,
) -> (response: CommandResponse<()>)
    ensures
        answers_link(old(notebook)@, final(notebook)@, from, to, response),
        old(notebook)@.wf() ==> final(notebook)@.wf(),
        old(notebook)@.consistent() ==> final(notebook)@.consistent(),
{
    let from = match from {
        Some(from) => from,
        None => {
            return CommandResponse::err("Invalid source note ID");
        },
    };
    let to = match to {
        Some(to) => to,
        None => {
            return CommandResponse::err("Invalid target note ID");
        },
    };
    match notebook.link_notes(from, to) {
        Ok(_) => CommandResponse::ok(()),
        Err(error) => CommandResponse::err(error.message().as_str()),
    }
}

/// Links the note that `from_id` names to the note that `to_id` names.
pub fn link_notes(notebook: &mut Notebook, from_id: &str, to_id: &str) -> (response:
    CommandResponse<()>)
    ensures
        answers_link(
            old(notebook)@,
            final(notebook)@,
            parsed_uuid(from_id@),
            parsed_uuid(to_id@),
            response,
        ),
        old(notebook)@.wf() ==> final(notebook)@.wf(),
        old(notebook)@.consistent() ==> final(notebook)@.consistent(),
{
    let from = parse_note_id(from_id);
    match from {
        Some(_) => link_notes_by_id(notebook, from, parse_note_id(to_id)),
        None => link_notes_by_id(notebook, None, None),
    }
}

/// Answers with copies of the notes whose title or content holds `query`,
/// case ignored.
pub fn search_notes(notebook: &Notebook, query: &str) -> (response: CommandResponse<Vec<Note>>)
    ensures
        response.succeeded(),
        notebook@.lists(owned_views(response.data->0@), notebook@.matching(query@)),
{
    let found = notebook.search(query);
    CommandResponse::ok(copies(&found))
}

/// Where a save goes: to `path` if one is given, which then becomes the
/// remembered path, else to the remembered path. Without either the save is
/// refused.
pub fn save_target(file_path: &mut Option<String>, path: Option<String>) -> (target: Result<
    String,
    CommandResponse<String>,
>)
    ensures
        match path {
            Some(given) => *final(file_path) == Some(given) && target == Ok::<
                String,
                CommandResponse<String>,
            >(given),
            None => *final(file_path) == *old(file_path) && match *old(file_path) {
                Some(kept) => target == Ok::<String, CommandResponse<String>>(kept),
                None => target is Err && target->Err_0.failed_with("No file path specified"@),
            },
        },
{
    match path {
        Some(given) => {
            *file_path = Some(given.clone());
            Ok(given)
        },
        None => match file_path {
            Some(kept) => Ok(kept.clone()),
            None => Err(CommandResponse::err("No file path specified")),
        },
    }
}

/// The answer to a save to `target`: the target itself if the storage
/// succeeded, else what its error says.
pub fn save_notebook(target: String, outcome: Result<(), StorageError>) -> (response:
    CommandResponse<String>)
    ensures
        match outcome {
            Ok(_) => response.succeeded() && response.data == Some(target),
            Err(error) => response.failed_with(error.message_text()),
        },
{
    match outcome {
        Ok(_) => CommandResponse::ok(target),
        Err(error) => CommandResponse::err(error.message().as_str()),
    }
}

/// Takes over what the storage loaded from `path`: the loaded notebook
/// becomes the current one and `path` the remembered path. If the storage
/// failed, nothing changes and the answer carries what its error says.
pub fn load_notebook(
    notebook: &mut Notebook,
    file_path: &mut Option<String>,
    path: String,
    loaded: Result<Notebook, StorageError>,
) -> (response: CommandResponse<Notebook>)
    ensures
        match loaded {
            Ok(book) => {
                &&& response.succeeded()
                &&& response.data->0@ == book@
                &&& final(notebook)@ == book@
                &&& *final(file_path) == Some(path)
            },
            Err(error) => {
                &&& response.failed_with(error.message_text())
                &&& final(notebook)@ == old(notebook)@
                &&& *final(file_path) == *old(file_path)
            },
        },
{
    match loaded {
        Ok(book) => {
            *notebook = book.clone();
            *file_path = Some(path);
            CommandResponse::ok(book)
        },
        Err(error) => CommandResponse::err(error.message().as_str()),
    }
}

/// Starts an empty notebook with the given name and forgets the remembered
/// path.
pub fn new_notebook(
    notebook: &mut Notebook,
    file_path: &mut Option<String>,
    name: &str,
) -> (response: CommandResponse<()>)
    ensures
        response.succeeded(),
        final(notebook)@ == NotebookView::empty(name@, final(notebook)@.created_at),
        final(notebook)@.consistent(),
        *final(file_path) == None::<String>,
{
    *notebook = Notebook::new(name);
    *file_path = None;
    CommandResponse::ok(())
}

} // verus!
