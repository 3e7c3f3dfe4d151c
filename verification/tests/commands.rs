use nexia_core::commands::{
    create_note, delete_note, delete_note_by_id, get_all_notes, get_note, get_note_by_id,
    link_notes, link_notes_by_id, load_notebook, new_notebook, save_notebook, save_target,
    search_notes, update_note_content, update_note_content_by_id, update_note_title,
    update_note_title_by_id, CommandResponse,
};
use nexia_core::{Note, Notebook, NotebookError, StorageError};
use uuid::Uuid;

fn text_of(note: &Note) -> String {
    Uuid::from_u128(note.id).to_string()
}

#[test]
fn ok_carries_the_data() {
    let response = CommandResponse::ok(7u32);
    assert!(response.success);
    assert_eq!(response.data, Some(7));
    assert_eq!(response.error, None);
}

#[test]
fn err_carries_the_message() {
    let response: CommandResponse<u32> = CommandResponse::err("went wrong");
    assert!(!response.success);
    assert_eq!(response.data, None);
    assert_eq!(response.error.as_deref(), Some("went wrong"));
}

#[test]
fn create_note_answers_with_the_stored_note() {
    let mut notebook = Notebook::new("Host");
    let response = create_note(&mut notebook, "Created");
    assert!(response.success);
    assert!(response.error.is_none());
    let note = response.data.unwrap();
    assert_eq!(note.title, "Created");
    assert_eq!(notebook.len(), 1);
    assert_eq!(notebook.get_note(&note.id).unwrap().title, "Created");
}

#[test]
fn get_note_reads_the_identifier_from_text() {
    let mut notebook = Notebook::new("Host");
    let note = create_note(&mut notebook, "Wanted").data.unwrap();
    let hyphenated = text_of(&note);
    let found = get_note(&notebook, &hyphenated);
    assert!(found.success);
    assert_eq!(found.data.unwrap().id, note.id);
    let simple = Uuid::from_u128(note.id).simple().to_string();
    assert_eq!(get_note(&notebook, &simple).data.unwrap().title, "Wanted");
    let upper = hyphenated.to_uppercase();
    assert_eq!(get_note(&notebook, &upper).data.unwrap().id, note.id);
}

#[test]
fn get_note_tells_a_bad_identifier_from_a_missing_note() {
    let mut notebook = Notebook::new("Host");
    create_note(&mut notebook, "Other");
    let bad = get_note(&notebook, "not-a-uuid");
    assert!(!bad.success);
    assert!(bad.data.is_none());
    assert_eq!(bad.error.as_deref(), Some("Invalid note ID"));
    let empty = get_note(&notebook, "");
    assert_eq!(empty.error.as_deref(), Some("Invalid note ID"));
    let missing = get_note(&notebook, &Uuid::new_v4().to_string());
    assert!(!missing.success);
    assert_eq!(missing.error.as_deref(), Some("Note not found"));
}

#[test]
fn get_all_notes_answers_with_every_note() {
    let mut notebook = Notebook::new("Host");
    assert_eq!(get_all_notes(&notebook).data.unwrap().len(), 0);
    let a = create_note(&mut notebook, "A").data.unwrap();
    let b = create_note(&mut notebook, "B").data.unwrap();
    let response = get_all_notes(&notebook);
    assert!(response.success);
    let mut ids: Vec<u128> = response.data.unwrap().iter().map(|note| note.id).collect();
    ids.sort();
    let mut expected = vec![a.id, b.id];
    expected.sort();
    assert_eq!(ids, expected);
}

#[test]
fn update_note_title_changes_only_the_title() {
    let mut notebook = Notebook::new("Host");
    let note = create_note(&mut notebook, "Before").data.unwrap();
    update_note_content(&mut notebook, &text_of(&note), "Body".to_string());
    let response = update_note_title(&mut notebook, &text_of(&note), "After".to_string());
    assert!(response.success);
    let updated = response.data.unwrap();
    assert_eq!(updated.title, "After");
    assert_eq!(updated.content, "Body");
    assert_eq!(updated.id, note.id);
    assert_eq!(updated.created_at, note.created_at);
    assert_eq!(notebook.get_note(&note.id).unwrap().title, "After");
}

#[test]
fn update_note_content_changes_only_the_content() {
    let mut notebook = Notebook::new("Host");
    let note = create_note(&mut notebook, "Title").data.unwrap();
    let response = update_note_content(&mut notebook, &text_of(&note), "New body".to_string());
    assert!(response.success);
    let updated = response.data.unwrap();
    assert_eq!(updated.title, "Title");
    assert_eq!(updated.content, "New body");
    assert_eq!(notebook.get_note(&note.id).unwrap().content, "New body");
}

#[test]
fn updates_refuse_bad_and_unknown_identifiers() {
    let mut notebook = Notebook::new("Host");
    let bad = update_note_title(&mut notebook, "???", "x".to_string());
    assert_eq!(bad.error.as_deref(), Some("Invalid note ID"));
    let missing = update_note_title(&mut notebook, &Uuid::new_v4().to_string(), "x".to_string());
    assert_eq!(missing.error.as_deref(), Some("Note not found"));
    let bad = update_note_content(&mut notebook, "???", "x".to_string());
    assert_eq!(bad.error.as_deref(), Some("Invalid note ID"));
    let missing =
        update_note_content(&mut notebook, &Uuid::new_v4().to_string(), "x".to_string());
    assert_eq!(missing.error.as_deref(), Some("Note not found"));
    assert!(notebook.is_empty());
}

#[test]
fn delete_note_removes_the_note_and_its_references() {
    let mut notebook = Notebook::new("Host");
    let a = create_note(&mut notebook, "A").data.unwrap();
    let b = create_note(&mut notebook, "B").data.unwrap();
    assert!(link_notes(&mut notebook, &text_of(&a), &text_of(&b)).success);
    let response = delete_note(&mut notebook, &text_of(&b));
    assert!(response.success);
    assert_eq!(response.data, Some(()));
    assert_eq!(notebook.len(), 1);
    assert!(notebook.get_note(&a.id).unwrap().links.is_empty());
    let again = delete_note(&mut notebook, &text_of(&b));
    assert_eq!(again.error.as_deref(), Some("Note not found"));
    let bad = delete_note(&mut notebook, "b");
    assert_eq!(bad.error.as_deref(), Some("Invalid note ID"));
}

#[test]
fn link_notes_names_what_is_wrong() {
    let mut notebook = Notebook::new("Host");
    let a = create_note(&mut notebook, "A").data.unwrap();
    let b = create_note(&mut notebook, "B").data.unwrap();
    let bad_source = link_notes(&mut notebook, "x", &text_of(&b));
    assert_eq!(bad_source.error.as_deref(), Some("Invalid source note ID"));
    let both_bad = link_notes(&mut notebook, "x", "y");
    assert_eq!(both_bad.error.as_deref(), Some("Invalid source note ID"));
    let bad_target = link_notes(&mut notebook, &text_of(&a), "y");
    assert_eq!(bad_target.error.as_deref(), Some("Invalid target note ID"));
    let missing = Uuid::parse_str("a1a2a3a4-b1b2-c1c2-d1d2-d3d4d5d6d7d8").unwrap();
    let not_found = link_notes(&mut notebook, &text_of(&a), &missing.to_string());
    assert!(!not_found.success);
    assert_eq!(
        not_found.error.as_deref(),
        Some("Note not found: a1a2a3a4-b1b2-c1c2-d1d2-d3d4d5d6d7d8")
    );
    assert!(notebook.get_note(&a.id).unwrap().links.is_empty());
    let linked = link_notes(&mut notebook, &text_of(&a), &text_of(&b));
    assert!(linked.success);
    assert_eq!(notebook.get_note(&a.id).unwrap().links, vec![b.id]);
    assert_eq!(notebook.get_backlinks(&b.id), vec![a.id]);
}

#[test]
fn error_messages_name_the_note() {
    let id = 0xa1a2a3a4_b1b2_c1c2_d1d2_d3d4d5d6d7d8u128;
    assert_eq!(
        NotebookError::NoteNotFound(id).message(),
        "Note not found: a1a2a3a4-b1b2-c1c2-d1d2-d3d4d5d6d7d8"
    );
    assert_eq!(
        NotebookError::NoteNotFound(0).message(),
        "Note not found: 00000000-0000-0000-0000-000000000000"
    );
    assert_eq!(
        NotebookError::NoteNotFound(0x0123456789abcdeffedcba9876543210).message(),
        "Note not found: 01234567-89ab-cdef-fedc-ba9876543210"
    );
    assert_eq!(
        NotebookError::NoteNotFound(u128::MAX).message(),
        "Note not found: ffffffff-ffff-ffff-ffff-ffffffffffff"
    );
    assert_eq!(NotebookError::CircularLink.message(), "Cannot create circular link");
}

#[test]
fn storage_errors_say_what_failed() {
    assert_eq!(StorageError::Io("denied".to_string()).message(), "IO error: denied");
    assert_eq!(
        StorageError::Json("expected value at line 1 column 1".to_string()).message(),
        "JSON serialization error: expected value at line 1 column 1"
    );
    assert_eq!(
        StorageError::NotFound("/nonexistent/path.json".to_string()).message(),
        "File not found: /nonexistent/path.json"
    );
    assert_eq!(StorageError::NotFound(String::new()).message(), "File not found: ");
}

#[test]
fn search_notes_answers_with_copies_of_the_matches() {
    let mut notebook = Notebook::new("Host");
    let a = create_note(&mut notebook, "Meeting Notes").data.unwrap();
    let b = create_note(&mut notebook, "Plan").data.unwrap();
    update_note_content(&mut notebook, &text_of(&b), "after the MEETING".to_string());
    create_note(&mut notebook, "Unrelated");
    let response = search_notes(&notebook, "meeting");
    assert!(response.success);
    let mut ids: Vec<u128> = response.data.unwrap().iter().map(|note| note.id).collect();
    ids.sort();
    let mut expected = vec![a.id, b.id];
    expected.sort();
    assert_eq!(ids, expected);
    assert!(search_notes(&notebook, "absent").data.unwrap().is_empty());
}

#[test]
fn save_target_prefers_the_given_path_and_remembers_it() {
    let mut remembered: Option<String> = None;
    let refused = save_target(&mut remembered, None);
    assert_eq!(refused.unwrap_err().error.as_deref(), Some("No file path specified"));
    assert_eq!(remembered, None);
    let target = save_target(&mut remembered, Some("first.json".to_string()));
    assert_eq!(target.ok(), Some("first.json".to_string()));
    assert_eq!(remembered.as_deref(), Some("first.json"));
    let target = save_target(&mut remembered, None);
    assert_eq!(target.ok(), Some("first.json".to_string()));
    let target = save_target(&mut remembered, Some("second.json".to_string()));
    assert_eq!(target.ok(), Some("second.json".to_string()));
    assert_eq!(remembered.as_deref(), Some("second.json"));
}

#[test]
fn save_notebook_answers_with_the_path_or_the_message() {
    let saved = save_notebook("book.json".to_string(), Ok(()));
    assert!(saved.success);
    assert_eq!(saved.data.as_deref(), Some("book.json"));
    let failed = save_notebook(
        "book.json".to_string(),
        Err(StorageError::Io("denied".to_string())),
    );
    assert!(!failed.success);
    assert_eq!(failed.data, None);
    assert_eq!(failed.error.as_deref(), Some("IO error: denied"));
}

#[test]
fn load_notebook_takes_over_what_was_loaded() {
    let mut current = Notebook::new("Current");
    let mut remembered = Some("old.json".to_string());
    let mut loaded = Notebook::new("Loaded");
    let a = loaded.create_note("A");
    let b = loaded.create_note("B");
    loaded.link_notes(a, b).unwrap();
    let response = load_notebook(&mut current, &mut remembered, "new.json".to_string(), Ok(loaded));
    assert!(response.success);
    assert_eq!(response.data.unwrap().name, "Loaded");
    assert_eq!(current.name, "Loaded");
    assert_eq!(current.len(), 2);
    assert_eq!(current.get_backlinks(&b), vec![a]);
    assert_eq!(remembered.as_deref(), Some("new.json"));
}

#[test]
fn load_notebook_keeps_the_state_when_loading_failed() {
    let mut current = Notebook::new("Current");
    current.create_note("Kept");
    let mut remembered = Some("old.json".to_string());
    let response = load_notebook(
        &mut current,
        &mut remembered,
        "/nonexistent/path.json".to_string(),
        Err(StorageError::NotFound("/nonexistent/path.json".to_string())),
    );
    assert!(!response.success);
    assert_eq!(response.error.as_deref(), Some("File not found: /nonexistent/path.json"));
    assert_eq!(current.name, "Current");
    assert_eq!(current.len(), 1);
    assert_eq!(remembered.as_deref(), Some("old.json"));
}

#[test]
fn new_notebook_starts_over() {
    let mut current = Notebook::new("Current");
    current.create_note("Dropped");
    let mut remembered = Some("old.json".to_string());
    let response = new_notebook(&mut current, &mut remembered, "Fresh");
    assert!(response.success);
    assert_eq!(current.name, "Fresh");
    assert!(current.is_empty());
    assert_eq!(remembered, None);
}

#[test]
fn commands_by_identifier_answer_like_their_text_forms() {
    let mut notebook = Notebook::new("Host");
    let a = create_note(&mut notebook, "A").data.unwrap();
    let b = create_note(&mut notebook, "B").data.unwrap();
    let missing = Uuid::new_v4().as_u128();

    assert_eq!(get_note_by_id(&notebook, Some(a.id)).data.unwrap().title, "A");
    assert_eq!(get_note_by_id(&notebook, None).error.as_deref(), Some("Invalid note ID"));
    assert_eq!(
        get_note_by_id(&notebook, Some(missing)).error.as_deref(),
        Some("Note not found")
    );

    let retitled = update_note_title_by_id(&mut notebook, Some(a.id), "A2".to_string());
    assert_eq!(retitled.data.unwrap().title, "A2");
    let rewritten = update_note_content_by_id(&mut notebook, Some(a.id), "text".to_string());
    let rewritten = rewritten.data.unwrap();
    assert_eq!(rewritten.title, "A2");
    assert_eq!(rewritten.content, "text");
    assert_eq!(
        update_note_title_by_id(&mut notebook, None, "x".to_string()).error.as_deref(),
        Some("Invalid note ID")
    );
    assert_eq!(
        update_note_content_by_id(&mut notebook, Some(missing), "x".to_string())
            .error
            .as_deref(),
        Some("Note not found")
    );

    assert_eq!(
        link_notes_by_id(&mut notebook, None, None).error.as_deref(),
        Some("Invalid source note ID")
    );
    assert_eq!(
        link_notes_by_id(&mut notebook, None, Some(b.id)).error.as_deref(),
        Some("Invalid source note ID")
    );
    assert_eq!(
        link_notes_by_id(&mut notebook, Some(a.id), None).error.as_deref(),
        Some("Invalid target note ID")
    );
    let not_found = link_notes_by_id(&mut notebook, Some(missing), Some(b.id));
    assert_eq!(
        not_found.error,
        Some(format!("Note not found: {}", Uuid::from_u128(missing)))
    );
    assert!(link_notes_by_id(&mut notebook, Some(a.id), Some(b.id)).success);
    assert_eq!(notebook.get_backlinks(&b.id), vec![a.id]);

    assert_eq!(
        delete_note_by_id(&mut notebook, None).error.as_deref(),
        Some("Invalid note ID")
    );
    assert_eq!(
        delete_note_by_id(&mut notebook, Some(missing)).error.as_deref(),
        Some("Note not found")
    );
    assert!(delete_note_by_id(&mut notebook, Some(b.id)).success);
    assert!(notebook.get_note(&a.id).unwrap().links.is_empty());
    assert_eq!(notebook.len(), 1);
}

#[test]
fn a_missing_note_still_moves_the_time_of_the_notebook() {
    let mut notebook = Notebook::new("Host");
    let mut earlier = notebook.created_at;
    earlier.secs -= 100;
    notebook.modified_at = earlier;
    let missing = Uuid::new_v4().to_string();
    assert!(!update_note_title(&mut notebook, &missing, "x".to_string()).success);
    assert!(notebook.modified_at > earlier);
    notebook.modified_at = earlier;
    assert!(!update_note_title(&mut notebook, "bad", "x".to_string()).success);
    assert_eq!(notebook.modified_at, earlier);
}
