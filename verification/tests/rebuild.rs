use nexia_core::{JsonStorage, Note, NoteId, Notebook};

fn rebuilt(notebook: &Notebook) -> Notebook {
    let notes: Vec<Note> = notebook.all_notes().into_iter().cloned().collect();
    Notebook::from_notes(&notebook.name, notebook.created_at, notebook.modified_at, notes)
        .unwrap()
}

fn sorted(mut ids: Vec<NoteId>) -> Vec<NoteId> {
    ids.sort();
    ids
}

fn assert_same(left: &Notebook, right: &Notebook) {
    assert_eq!(left.name, right.name);
    assert_eq!(left.created_at, right.created_at);
    assert_eq!(left.modified_at, right.modified_at);
    assert_eq!(left.len(), right.len());
    assert_eq!(sorted(left.all_note_ids()), sorted(right.all_note_ids()));
    for id in left.all_note_ids() {
        let a = left.get_note(&id).unwrap();
        let b = right.get_note(&id).unwrap();
        assert_eq!(a.id, b.id);
        assert_eq!(a.title, b.title);
        assert_eq!(a.content, b.content);
        assert_eq!(a.position, b.position);
        assert_eq!(a.size, b.size);
        assert_eq!(a.created_at, b.created_at);
        assert_eq!(a.modified_at, b.modified_at);
        assert_eq!(a.links, b.links);
        assert_eq!(a.prototype, b.prototype);
        assert_eq!(a.attributes.entries().len(), b.attributes.entries().len());
        for (key, value) in a.attributes.entries() {
            assert_eq!(b.get_attribute(key), Some(value));
        }
        assert_eq!(sorted(left.get_backlinks(&id)), sorted(right.get_backlinks(&id)));
    }
}

#[test]
fn an_empty_notebook_is_given_back_by_its_notes() {
    let notebook = Notebook::new("Empty");
    let again = rebuilt(&notebook);
    assert!(again.is_empty());
    assert_same(&notebook, &again);
}

#[test]
fn a_note_without_links_is_given_back() {
    let mut notebook = Notebook::new("Single");
    let id = notebook.create_note("Alone");
    let again = rebuilt(&notebook);
    assert_same(&notebook, &again);
    assert!(again.get_note(&id).unwrap().links.is_empty());
    assert!(again.get_backlinks(&id).is_empty());
}

#[test]
fn links_and_the_index_are_given_back() {
    let mut notebook = Notebook::new("Test Notebook");
    let id1 = notebook.create_note("Note 1");
    let id2 = notebook.create_note("Note 2");
    let id3 = notebook.create_note("Note 3");
    notebook.link_notes(id1, id2).unwrap();
    notebook.link_notes(id3, id2).unwrap();
    notebook.link_notes(id2, id1).unwrap();
    let again = rebuilt(&notebook);
    assert_eq!(again.name, "Test Notebook");
    assert_eq!(again.len(), 3);
    assert!(again.get_note(&id1).unwrap().links_to(&id2));
    assert_eq!(sorted(again.get_backlinks(&id2)), sorted(vec![id1, id3]));
    assert_eq!(again.get_backlinks(&id1), vec![id2]);
    assert_same(&notebook, &again);
}

#[test]
fn attributes_of_mixed_shapes_are_given_back() {
    let mut notebook = Notebook::new("Attributes");
    let id = notebook.create_note("Tagged");
    let numbers = serde_json::Value::Array(vec![
        serde_json::Value::from(1),
        serde_json::Value::from(2),
        serde_json::Value::from(3),
    ]);
    let mut object = serde_json::Map::new();
    object.insert("inner".to_string(), numbers.clone());
    object.insert("flag".to_string(), serde_json::Value::Bool(false));
    if let Some(note) = notebook.get_note_mut(&id) {
        note.set_attribute("numbers", numbers.clone());
        note.set_attribute("text", serde_json::Value::from("plain"));
        note.set_attribute("nothing", serde_json::Value::Null);
        note.set_attribute("object", serde_json::Value::Object(object.clone()));
        note.position = Some(nexia_core::Point2D::new(7.0f64.to_bits(), 8.0f64.to_bits()));
        note.prototype = Some(id);
    }
    let again = rebuilt(&notebook);
    assert_same(&notebook, &again);
    let note = again.get_note(&id).unwrap();
    assert_eq!(note.get_attribute("numbers"), Some(&numbers));
    assert_eq!(note.get_attribute("object"), Some(&serde_json::Value::Object(object)));
    assert_eq!(note.get_attribute("nothing"), Some(&serde_json::Value::Null));
}

#[test]
fn two_notes_with_one_identifier_make_no_notebook() {
    let first = Note::new("First");
    let mut second = Note::new("Second");
    second.id = first.id;
    let stamp = first.created_at;
    assert!(Notebook::from_notes("Twice", stamp, stamp, vec![first, second]).is_none());
}

#[test]
fn a_note_that_links_to_itself_makes_no_notebook() {
    let mut note = Note::new("Self");
    note.links.push(note.id);
    let stamp = note.created_at;
    assert!(Notebook::from_notes("Self", stamp, stamp, vec![Note::new("Fine"), note]).is_none());
}

#[test]
fn a_note_that_links_twice_to_one_target_makes_no_notebook() {
    let target = Note::new("Target");
    let mut note = Note::new("Twice");
    note.links.push(target.id);
    note.links.push(target.id);
    let stamp = note.created_at;
    assert!(Notebook::from_notes("Twice", stamp, stamp, vec![note, target]).is_none());
}

#[test]
fn a_rebuilt_index_holds_links_to_notes_that_are_not_there() {
    let mut note = Note::new("Dangling");
    let missing = Note::new("Missing").id;
    note.add_link(missing);
    let id = note.id;
    let stamp = note.created_at;
    let mut later = stamp;
    later.secs += 5;
    let book = Notebook::from_notes("Dangling", stamp, later, vec![note]).unwrap();
    assert_eq!(book.get_backlinks(&missing), vec![id]);
    assert_eq!(book.created_at, stamp);
    assert_eq!(book.modified_at, later);
    assert_eq!(book.name, "Dangling");
}

#[test]
fn validity_is_about_the_links() {
    let mut note = Note::new("Checked");
    assert!(note.is_valid());
    let other = Note::new("Other").id;
    note.add_link(other);
    assert!(note.is_valid());
    note.links.push(other);
    assert!(!note.is_valid());
    note.links.pop();
    note.links.push(note.id);
    assert!(!note.is_valid());
}

#[test]
fn the_json_storage_has_one_value() {
    assert_eq!(JsonStorage::new(), JsonStorage::default());
    assert_eq!(JsonStorage::new(), JsonStorage);
}

#[test]
fn the_library_names_its_version() {
    assert_eq!(nexia_core::VERSION, "0.1.0");
}

#[test]
fn a_notebook_that_saw_a_self_link_request_and_a_replacement_is_given_back() {
    let mut notebook = Notebook::new("Requests");
    let a = notebook.create_note("A");
    let b = notebook.create_note("B");
    notebook.link_notes(a, a).unwrap();
    notebook.link_notes(a, b).unwrap();
    notebook.link_notes(b, a).unwrap();
    let mut replacement = Note::new("A again");
    replacement.id = a;
    notebook.add_note(replacement);
    let again = rebuilt(&notebook);
    assert_same(&notebook, &again);
    assert!(again.get_backlinks(&b).is_empty());
    assert_eq!(again.get_backlinks(&a), vec![b]);
}
