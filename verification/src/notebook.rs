// SPDX-License-Identifier: AGPL-3.0-or-later
//! The notebook: the owner of all notes and of the reverse index of their
//! links.

use vstd::prelude::*;
use vstd::std_specs::iter::IteratorSpec;
use vstd::string::StringExecFns;
use std::collections::hash_map::Entry;
use std::collections::{HashMap, HashSet};
use crate::clock::{now, Timestamp};
use crate::graph::{
    all_valid, ids_distinct, lemma_linked_keeps, lemma_rebuilt_consistent, lemma_touched_keeps,
    lemma_unlinked_keeps, lemma_with_edited_keeps, lemma_with_note_keeps, lemma_with_notes,
    lemma_without_note_keeps, lemma_without_note_leaves_no_reference, names, NotebookView,
};
use crate::ident::{fresh_id, is_random_uuid, note_id_text, uuid_text, NoteId};
use crate::note::{Note, NoteView};
use crate::text::{
    contains, lemma_empty_is_substring, lowercase, matches_ignoring_case, to_lowercase,
};

verus! {

broadcast use {
    vstd::std_specs::hash::group_hash_axioms,
    vstd::seq_lib::lemma_seq_contains_after_push,
};

/// Why a notebook operation was refused.
#[derive(Debug)]
pub enum NotebookError {
    /// No note stands under this identifier.
    NoteNotFound(NoteId),
    /// Kept for a rule against cycles; no operation reports it.
    CircularLink,
}

impl NotebookError {
    /// What the error says, in words.
    pub open spec fn message_text(self) -> Seq<char> {
        match self {
            NotebookError::NoteNotFound(id) => "Note not found: "@ + uuid_text(id),
            NotebookError::CircularLink => "Cannot create circular link"@,
        }
    }

    /// What the error says, in words.
    pub fn message(&self) -> (text: String)
        ensures
            text@ == self.message_text(),
    {
        match self {
            NotebookError::NoteNotFound(id) => {
                let id_text = note_id_text(*id);
                "Note not found: ".to_owned().concat(id_text.as_str())
            },
            NotebookError::CircularLink => "Cannot create circular link".to_owned(),
        }
    }
}

/// A collection of notes with the links between them.
#[derive(Debug)]
pub struct Notebook {
    notes: HashMap<NoteId, Note>,
    backlinks: HashMap<NoteId, HashSet<NoteId>>,
    pub name: String,
    pub created_at: Timestamp,
    pub modified_at: Timestamp,
}

/// The notes of a map, each as mathematical values.
spec fn note_views(notes: Map<NoteId, Note>) -> Map<NoteId, NoteView> {
    Map::new(|id: NoteId| notes.contains_key(id), |id: NoteId| notes[id]@)
}

/// The pairs `(source, target)` that a map from targets to sets of sources
/// holds.
spec fn index_pairs(backlinks: Map<NoteId, HashSet<NoteId>>) -> Set<(NoteId, NoteId)> {
    Set::new(
        |p: (NoteId, NoteId)| backlinks.contains_key(p.1) && backlinks[p.1]@.contains(p.0),
    )
}

impl View for Notebook {
    type V = NotebookView;

    closed spec fn view(&self) -> NotebookView {
        NotebookView {
            name: self.name@,
            created_at: self.created_at,
            modified_at: self.modified_at,
            notes: note_views(self.notes@),
            backlinks: index_pairs(self.backlinks@),
        }
    }
}

/// The notes of a list, each as mathematical values.
pub open spec fn listed_views(list: Seq<&Note>) -> Seq<NoteView> {
    Seq::new(list.len(), |i: int| list[i]@)
}

/// The notes of a list, each as mathematical values.
pub open spec fn owned_views(list: Seq<Note>) -> Seq<NoteView> {
    Seq::new(list.len(), |i: int| list[i]@)
}

/// Which fields a search looks at.
#[derive(Clone, Copy, Debug, PartialEq, Eq)]
enum Scope {
    Title,
    Content,
    Either,
    /// Every note matches, whatever the query.
    Everything,
}

/// Whether `note` matches `query` in the fields of `scope`, case ignored.
spec fn in_scope(scope: Scope, note: NoteView, query: Seq<char>) -> bool {
    match scope {
        Scope::Title => matches_ignoring_case(note.title, query),
        Scope::Content => matches_ignoring_case(note.content, query),
        Scope::Either => matches_ignoring_case(note.title, query) || matches_ignoring_case(
            note.content,
            query,
        ),
        Scope::Everything => true,
    }
}

/// What one more place adds to the front part of a list: the value at that
/// place. If the list holds no value twice, neither does the longer front
/// part, and the value is new to it.
proof fn lemma_take_one_more(list: Seq<NoteId>, i: int)
    requires
        0 <= i < list.len(),
    ensures
        list.take(i + 1) == list.take(i).push(list[i]),
        list.no_duplicates() ==> !list.take(i).contains(list[i]),
        list.take(i).no_duplicates() && !list.take(i).contains(list[i]) ==> list.take(
            i + 1,
        ).no_duplicates(),
{
    let shorter = list.take(i);
    let longer = list.take(i + 1);
    assert(longer =~= shorter.push(list[i]));
    if list.no_duplicates() && shorter.contains(list[i]) {
        let j = choose|j: int| 0 <= j < shorter.len() && shorter[j] == list[i];
        assert(list[j] == list[i]);
    }
    if shorter.no_duplicates() && !shorter.contains(list[i]) {
        assert forall|a: int, b: int|
            0 <= a < longer.len() && 0 <= b < longer.len() && a != b implies longer[a]
            != longer[b] by {
            if a < i {
                assert(shorter.contains(shorter[a]));
            }
            if b < i {
                assert(shorter.contains(shorter[b]));
            }
        }
    }
}

/// Records `source` as linking to `target`.
fn record(backlinks: &mut HashMap<NoteId, HashSet<NoteId>>, source: NoteId, target: NoteId)
    ensures
        index_pairs(final(backlinks)@) == index_pairs(old(backlinks)@).insert((source, target)),
{
    let sources = backlinks.entry(target).or_insert(HashSet::new());
    sources.insert(source);
    assert(index_pairs(backlinks@) =~= index_pairs(old(backlinks)@).insert((source, target)));
}

/// Takes back that `source` links to `target`.
fn forget(backlinks: &mut HashMap<NoteId, HashSet<NoteId>>, source: NoteId, target: NoteId)
    ensures
        index_pairs(final(backlinks)@) == index_pairs(old(backlinks)@).remove((source, target)),
{
    match backlinks.entry(target) {
        Entry::Occupied(entry) => {
            entry.into_mut().remove(&source);
        },
        Entry::Vacant(_) => {},
    }
    assert(index_pairs(backlinks@) =~= index_pairs(old(backlinks)@).remove((source, target)));
}

/// The members of a set, each once.
fn members(set: &HashSet<NoteId>) -> (list: Vec<NoteId>)
    ensures
        list@.no_duplicates(),
        list@.to_set() == set@,
{
    let mut list: Vec<NoteId> = Vec::new();
    let ghost all = set.iter().remaining().unref();
    for member in it: set.iter()
        invariant
            it.seq().unref() == all,
            list@ == all.take(it.index()),
    {
        list.push(*member);
        assert(list@ =~= all.take(it.index() + 1));
    }
    assert(list@ =~= all);
    assert(all.no_duplicates()) by {
        let refs = set.iter().remaining();
        assert forall|i: int, j: int|
            0 <= i < all.len() && 0 <= j < all.len() && i != j implies all[i] != all[j] by {
            assert(refs[i] != refs[j]);
        }
    }
    list
}

impl Notebook {
    /// An empty notebook with the given name, created at time `at`.
    pub fn new_at(name: &str, at: Timestamp) -> (book: Notebook)
        ensures
            book@ == NotebookView::empty(name@, at),
            book@.consistent(),
    {
        let book = Notebook {
            notes: HashMap::new(),
            backlinks: HashMap::new(),
            name: name.to_owned(),
            created_at: at,
            modified_at: at,
        };
        assert(book@ =~= NotebookView::empty(name@, at));
        book
    }

    /// An empty notebook with the given name, created now.
    pub fn new(name: &str) -> (book: Notebook)
        ensures
            book@ == NotebookView::empty(name@, book@.created_at),
            book@.consistent(),
    {
        Notebook::new_at(name, now())
    }

    /// The name of the notebook.
    pub fn name(&self) -> (name: &str)
        ensures
            name@ == self@.name,
    {
        self.name.as_str()
    }

    /// When the notebook was created.
    pub fn created_at(&self) -> (at: Timestamp)
        ensures
            at == self@.created_at,
    {
        self.created_at
    }

    /// When the notebook was last changed.
    pub fn modified_at(&self) -> (at: Timestamp)
        ensures
            at == self@.modified_at,
    {
        self.modified_at
    }

    /// Sets the time of the last change to `at`.
    fn touch_at(&mut self, at: Timestamp)
        ensures
            final(self)@ == old(self)@.touched(at),
            final(self).notes == old(self).notes,
            final(self).backlinks == old(self).backlinks,
    {
        self.modified_at = at;
    }

    /// Sets the time of the last change to the current time.
    fn touch(&mut self)
        ensures
            final(self)@ == old(self)@.touched(final(self)@.modified_at),
            final(self).notes == old(self).notes,
            final(self).backlinks == old(self).backlinks,
    {
        self.touch_at(now());
    }

    /// The number of notes.
    pub fn len(&self) -> (count: usize)
        ensures
            count == self@.notes.len(),
    {
        assert(self@.notes.dom() =~= self.notes@.dom());
        self.notes.len()
    }

    /// Whether the notebook holds no note.
    pub fn is_empty(&self) -> (empty: bool)
        ensures
            empty == (self@.notes.len() == 0),
    {
        assert(self@.notes.dom() =~= self.notes@.dom());
        self.notes.len() == 0
    }

    /// Puts `note` in under its identifier, the time of the last change
    /// left alone: the links of a note that it replaces leave the reverse
    /// index, and its own links are recorded.
    fn insert_note(&mut self, note: Note)
        ensures
            final(self)@ == old(self)@.with_note(note@, old(self)@.modified_at),
    {
        let id = note.id;
        match self.notes.remove(&id) {
            Some(replaced) => {
                assert(replaced@ == old(self)@.notes[id]);
                self.forget_links(id, &replaced.links);
            },
            None => {},
        }
        let ghost kept = index_pairs(self.backlinks@);
        assert forall|p: (NoteId, NoteId)|
            kept.contains(p) <==> old(self)@.backlinks.contains(p) && !(p.0 == id && old(
                self,
            )@.links_to(id, p.1)) by {}
        let mut i: usize = 0;
        while i < note.links.len()
            invariant
                i <= note.links.len(),
                id == note.id,
                self.notes@ == old(self).notes@.remove(id),
                self.name == old(self).name,
                self.created_at == old(self).created_at,
                self.modified_at == old(self).modified_at,
                index_pairs(self.backlinks@) == Set::new(
                    |p: (NoteId, NoteId)|
                        kept.contains(p) || (p.0 == id && note.links@.take(i as int).contains(
                            p.1,
                        )),
                ),
            decreases note.links.len() - i,
        {
            let target = note.links[i];
            record(&mut self.backlinks, id, target);
            proof {
                let after = note.links@.take(i + 1);
                lemma_take_one_more(note.links@, i as int);
                assert(index_pairs(self.backlinks@) =~= Set::new(
                    |p: (NoteId, NoteId)| kept.contains(p) || (p.0 == id && after.contains(p.1)),
                ));
            }
            i += 1;
        }
        assert(note.links@.take(i as int) =~= note.links@);
        self.notes.insert(id, note);
        proof {
            let after = old(self)@.with_note(note@, old(self)@.modified_at);
            assert(self@.notes =~= after.notes);
            assert(self@.backlinks =~= after.backlinks);
        }
    }

    /// Puts `note` into the notebook at time `at`, under its identifier and
    /// in place of any note that stood there, and returns the identifier.
    /// The reverse index follows: the links of a replaced note leave it,
    /// the links of `note` are recorded.
    pub fn add_note_at(&mut self, note: Note, at: Timestamp) -> (id: NoteId)
        ensures
            id == note.id,
            final(self)@ == old(self)@.with_note(note@, at),
            old(self)@.wf() && note@.valid() ==> final(self)@.wf(),
            old(self)@.consistent() && note@.valid() ==> final(self)@.consistent(),
    {
        let id = note.id;
        self.insert_note(note);
        self.touch_at(at);
        proof {
            if note@.valid() {
                lemma_with_note_keeps(old(self)@, note@, at);
            }
        }
        id
    }

    /// Puts `note` into the notebook under its identifier, in place of any
    /// note that stood there, and returns the identifier. The reverse index
    /// follows, and the time of the last change becomes the current time.
    pub fn add_note(&mut self, note: Note) -> (id: NoteId)
        ensures
            id == note.id,
            final(self)@ == old(self)@.with_note(note@, final(self)@.modified_at),
            old(self)@.wf() && note@.valid() ==> final(self)@.wf(),
            old(self)@.consistent() && note@.valid() ==> final(self)@.consistent(),
    {
        self.add_note_at(note, now())
    }

    /// Makes a new note with the given title and identifier at time `at`,
    /// puts it in, and returns the identifier.
    pub fn create_note_at(&mut self, title: &str, id: NoteId, at: Timestamp) -> (made: NoteId)
        ensures
            made == id,
            final(self)@ == old(self)@.with_note(NoteView::fresh(id, title@, at), at),
            old(self)@.wf() ==> final(self)@.wf(),
            old(self)@.consistent() ==> final(self)@.consistent(),
    {
        let note = Note::new_at(title, id, at);
        self.add_note_at(note, at)
    }

    /// Makes a new note with the given title, a fresh identifier and the
    /// current time, puts it in, and returns its identifier.
    pub fn create_note(&mut self, title: &str) -> (id: NoteId)
        ensures
            is_random_uuid(id),
            final(self)@ == old(self)@.with_note(
                NoteView::fresh(id, title@, final(self)@.modified_at),
                final(self)@.modified_at,
            ),
            old(self)@.wf() ==> final(self)@.wf(),
            old(self)@.consistent() ==> final(self)@.consistent(),
    {
        self.create_note_at(title, fresh_id(), now())
    }

    /// The note under `id`, if there is one.
    pub fn get_note(&self, id: &NoteId) -> (found: Option<&Note>)
        ensures
            match found {
                Some(note) => self@.notes.contains_key(*id) && note@ == self@.notes[*id],
                None => !self@.notes.contains_key(*id),
            },
    {
        self.notes.get(id)
    }

    /// A handle for changing the note under `id`, if there is one, asked
    /// for at time `at`, which becomes the notebook's time of change either
    /// way. What the caller writes through the handle becomes the note;
    /// the reverse index is not touched.
    pub fn get_note_mut_at(&mut self, id: &NoteId, at: Timestamp) -> (found: Option<&mut Note>)
        ensures
            match found {
                Some(note) => old(self)@.notes.contains_key(*id) && note@ == old(self)@.notes[*id]
                    && final(self)@ == old(self)@.with_edited(*id, final(note)@, at),
                None => !old(self)@.notes.contains_key(*id) && final(self)@ == old(self)@.touched(
                    at,
                ),
            },
            found matches Some(note) ==> (final(note)@.id == note@.id && final(note)@.links
                == note@.links ==> (old(self)@.wf() ==> final(self)@.wf()) && (old(self)@.exact()
                ==> final(self)@.exact())),
            found is None ==> (old(self)@.wf() ==> final(self)@.wf()) && (old(self)@.exact()
                ==> final(self)@.exact()),
    {
        self.touch_at(at);
        let ghost before = self.notes@;
        match self.notes.entry(*id) {
            Entry::Occupied(entry) => {
                let note = entry.into_mut();
                proof {
                    let after = before.insert(*id, *final(note));
                    assert(note_views(after) =~= note_views(before).insert(*id, final(note)@));
                    lemma_with_edited_keeps(old(self)@, *id, final(note)@, at);
                }
                Some(note)
            },
            Entry::Vacant(_) => {
                assert(before.remove(*id) =~= before);
                proof {
                    lemma_touched_keeps(old(self)@, at);
                }
                None
            },
        }
    }

    /// A handle for changing the note under `id`, if there is one. The
    /// notebook's own time of change becomes the current time either way.
    /// What the caller writes through the handle becomes the note; the
    /// reverse index is not touched.
    pub fn get_note_mut(&mut self, id: &NoteId) -> (found: Option<&mut Note>)
        ensures
            match found {
                Some(note) => old(self)@.notes.contains_key(*id) && note@ == old(self)@.notes[*id]
                    && final(self)@ == old(self)@.with_edited(
                    *id,
                    final(note)@,
                    final(self)@.modified_at,
                ),
                None => !old(self)@.notes.contains_key(*id) && final(self)@ == old(self)@.touched(
                    final(self)@.modified_at,
                ),
            },
            found matches Some(note) ==> (final(note)@.id == note@.id && final(note)@.links
                == note@.links ==> (old(self)@.wf() ==> final(self)@.wf()) && (old(self)@.exact()
                ==> final(self)@.exact())),
            found is None ==> (old(self)@.wf() ==> final(self)@.wf()) && (old(self)@.exact()
                ==> final(self)@.exact()),
    {
        self.get_note_mut_at(id, now())
    }

    /// Takes the note under `id` out of the notebook at time `at` and
    /// returns it. With it go the entries of its links in the reverse
    /// index, every entry that points at it, and the link to it in each
    /// note recorded as one of its sources. Nothing changes if there is no
    /// such note.
    pub fn remove_note_at(&mut self, id: &NoteId, at: Timestamp) -> (removed: Option<Note>)
        ensures
            match removed {
                Some(note) => old(self)@.notes.contains_key(*id) && note@ == old(self)@.notes[*id]
                    && final(self)@ == old(self)@.without_note(*id, at),
                None => !old(self)@.notes.contains_key(*id) && final(self)@ == old(self)@,
            },
            old(self)@.wf() ==> final(self)@.wf(),
            old(self)@.consistent() ==> final(self)@.consistent(),
            old(self)@.wf() && removed is Some ==> (forall|other: NoteId|
                !(#[trigger] final(self)@.links_to(other, *id))) && final(self)@.sources_of(*id)
                == Set::<NoteId>::empty(),
    {
        let id = *id;
        match self.notes.remove(&id) {
            None => {
                assert(self@ =~= old(self)@);
                None
            },
            Some(note) => {
                assert(note@ == old(self)@.notes[id]);
                self.forget_links(id, &note.links);
                let ghost pruned = self.backlinks@;
                let sources = match self.backlinks.remove(&id) {
                    Some(set) => members(&set),
                    None => Vec::new(),
                };
                proof {
                    assert(self.backlinks@ == pruned.remove(id));
                    assert forall|s: NoteId| sources@.contains(s) <==> index_pairs(
                        pruned,
                    ).contains((s, id)) by {
                        assert(sources@.contains(s) <==> sources@.to_set().contains(s));
                    }
                    let target_index = old(self)@.without_note(id, at).backlinks;
                    assert forall|p: (NoteId, NoteId)|
                        index_pairs(self.backlinks@).contains(p) <==> target_index.contains(
                            p,
                        ) by {
                        if p.1 != id {
                            assert(self.backlinks@.contains_key(p.1) <==> pruned.contains_key(p.1));
                            assert(index_pairs(self.backlinks@).contains(p) <==> index_pairs(
                                pruned,
                            ).contains(p));
                        }
                    }
                    assert(index_pairs(self.backlinks@) =~= target_index);
                }
                self.drop_links_to(&sources, id, at);
                self.touch_at(at);
                proof {
                    let after = old(self)@.without_note(id, at);
                    assert(self@.notes =~= after.notes);
                    assert(self@.backlinks =~= after.backlinks);
                    if old(self)@.wf() {
                        lemma_without_note_keeps(old(self)@, id, at);
                        lemma_without_note_leaves_no_reference(old(self)@, id, at);
                    }
                }
                Some(note)
            },
        }
    }

    /// Takes the note under `id` out of the notebook and returns it, with
    /// every reference to it. The notebook, and each note that loses a link,
    /// gets the current time as the time of its last change. Nothing
    /// changes if there is no such note.
    pub fn remove_note(&mut self, id: &NoteId) -> (removed: Option<Note>)
        ensures
            match removed {
                Some(note) => old(self)@.notes.contains_key(*id) && note@ == old(self)@.notes[*id]
                    && final(self)@ == old(self)@.without_note(*id, final(self)@.modified_at),
                None => !old(self)@.notes.contains_key(*id) && final(self)@ == old(self)@,
            },
            old(self)@.wf() ==> final(self)@.wf(),
            old(self)@.consistent() ==> final(self)@.consistent(),
            old(self)@.wf() && removed is Some ==> (forall|other: NoteId|
                !(#[trigger] final(self)@.links_to(other, *id))) && final(self)@.sources_of(*id)
                == Set::<NoteId>::empty(),
    {
        self.remove_note_at(id, now())
    }

    /// Links the note `from` to the note `to` at time `at`. Both must be in
    /// the notebook: otherwise nothing changes and the error names the one
    /// that is missing, `from` first. A note does not link to itself: such
    /// a request succeeds and changes neither the note nor the reverse
    /// index.
    pub fn link_notes_at(&mut self, from: NoteId, to: NoteId, at: Timestamp) -> (result: Result<
        (),
        NotebookError,
    >)
        ensures
            match result {
                Ok(_) => old(self)@.notes.contains_key(from) && old(self)@.notes.contains_key(to)
                    && final(self)@ == old(self)@.linked(from, to, at),
                Err(error) => final(self)@ == old(self)@ && (if !old(self)@.notes.contains_key(
                    from,
                ) {
                    error == NotebookError::NoteNotFound(from)
                } else {
                    !old(self)@.notes.contains_key(to) && error == NotebookError::NoteNotFound(to)
                }),
            },
            old(self)@.wf() ==> final(self)@.wf(),
            old(self)@.consistent() ==> final(self)@.consistent(),
    {
        if !self.notes.contains_key(&from) {
            return Err(NotebookError::NoteNotFound(from));
        }
        if !self.notes.contains_key(&to) {
            return Err(NotebookError::NoteNotFound(to));
        }
        let ghost before = self.notes@;
        match self.notes.entry(from) {
            Entry::Occupied(entry) => {
                entry.into_mut().add_link_at(to, at);
            },
            Entry::Vacant(_) => {},
        }
        if from != to {
            record(&mut self.backlinks, from, to);
        }
        self.touch_at(at);
        proof {
            let after = old(self)@.linked(from, to, at);
            assert(self.notes@ =~= before.insert(from, self.notes@[from]));
            assert(self@.notes =~= after.notes);
            assert(self@.backlinks =~= after.backlinks);
            if old(self)@.wf() {
                lemma_linked_keeps(old(self)@, from, to, at);
            }
        }
        Ok(())
    }

    /// Links the note `from` to the note `to`, as `link_notes_at` does at
    /// the current time.
    pub fn link_notes(&mut self, from: NoteId, to: NoteId) -> (result: Result<(), NotebookError>)
        ensures
            match result {
                Ok(_) => old(self)@.notes.contains_key(from) && old(self)@.notes.contains_key(to)
                    && final(self)@ == old(self)@.linked(from, to, final(self)@.modified_at),
                Err(error) => final(self)@ == old(self)@ && (if !old(self)@.notes.contains_key(
                    from,
                ) {
                    error == NotebookError::NoteNotFound(from)
                } else {
                    !old(self)@.notes.contains_key(to) && error == NotebookError::NoteNotFound(to)
                }),
            },
            old(self)@.wf() ==> final(self)@.wf(),
            old(self)@.consistent() ==> final(self)@.consistent(),
    {
        self.link_notes_at(from, to, now())
    }

    /// Takes the link from `from` to `to` away at time `at`, in the note
    /// and in the reverse index. `from` must be in the notebook: otherwise
    /// nothing changes. Whether `to` is in the notebook does not matter.
    pub fn unlink_notes_at(&mut self, from: NoteId, to: NoteId, at: Timestamp) -> (result: Result<
        (),
        NotebookError,
    >)
        ensures
            match result {
                Ok(_) => old(self)@.notes.contains_key(from) && final(self)@ == old(self)@.unlinked(
                    from,
                    to,
                    at,
                ),
                Err(error) => !old(self)@.notes.contains_key(from) && final(self)@ == old(self)@
                    && error == NotebookError::NoteNotFound(from),
            },
            old(self)@.wf() ==> final(self)@.wf(),
            old(self)@.consistent() ==> final(self)@.consistent(),
            old(self)@.wf() && result is Ok ==> !final(self)@.links_to(from, to),
    {
        let ghost before = self.notes@;
        match self.notes.entry(from) {
            Entry::Occupied(entry) => {
                entry.into_mut().remove_link_at(&to, at);
            },
            Entry::Vacant(_) => {
                assert(self.notes@ =~= before);
                assert(self@ =~= old(self)@);
                return Err(NotebookError::NoteNotFound(from));
            },
        }
        forget(&mut self.backlinks, from, to);
        self.touch_at(at);
        proof {
            let after = old(self)@.unlinked(from, to, at);
            assert(self.notes@ =~= before.insert(from, self.notes@[from]));
            assert(self@.notes =~= after.notes);
            assert(self@.backlinks =~= after.backlinks);
            if old(self)@.wf() {
                lemma_unlinked_keeps(old(self)@, from, to, at);
            }
        }
        Ok(())
    }

    /// Takes the link from `from` to `to` away, as `unlink_notes_at` does
    /// at the current time.
    pub fn unlink_notes(&mut self, from: NoteId, to: NoteId) -> (result: Result<
        (),
        NotebookError,
    >)
        ensures
            match result {
                Ok(_) => old(self)@.notes.contains_key(from) && final(self)@ == old(self)@.unlinked(
                    from,
                    to,
                    final(self)@.modified_at,
                ),
                Err(error) => !old(self)@.notes.contains_key(from) && final(self)@ == old(self)@
                    && error == NotebookError::NoteNotFound(from),
            },
            old(self)@.wf() ==> final(self)@.wf(),
            old(self)@.consistent() ==> final(self)@.consistent(),
            old(self)@.wf() && result is Ok ==> !final(self)@.links_to(from, to),
    {
        self.unlink_notes_at(from, to, now())
    }

    /// The notes recorded as linking to `id`, each once, in no particular
    /// order.
    pub fn get_backlinks(&self, id: &NoteId) -> (sources: Vec<NoteId>)
        ensures
            sources@.no_duplicates(),
            sources@.to_set() == self@.sources_of(*id),
    {
        let sources = match self.backlinks.get(id) {
            Some(set) => members(set),
            None => Vec::new(),
        };
        assert(sources@.to_set() =~= self@.sources_of(*id));
        sources
    }

    /// The identifiers of all notes, each once, in no particular order.
    pub fn all_note_ids(&self) -> (ids: Vec<NoteId>)
        ensures
            ids@.no_duplicates(),
            ids@.to_set() == self@.notes.dom(),
    {
        let mut ids: Vec<NoteId> = Vec::new();
        let ghost all = self.notes.keys().remaining().unref();
        for id in it: self.notes.keys()
            invariant
                it.seq().unref() == all,
                ids@ == all.take(it.index()),
        {
            ids.push(*id);
            assert(ids@ =~= all.take(it.index() + 1));
        }
        assert(ids@ =~= all);
        assert(all.no_duplicates()) by {
            let refs = self.notes.keys().remaining();
            assert forall|i: int, j: int| 0 <= i < all.len() && 0 <= j < all.len() && i
                != j implies all[i] != all[j] by {
                assert(refs[i] != refs[j]);
            }
        }
        assert(self@.notes.dom() =~= self.notes@.dom());
        ids
    }

    /// The notes under `ids` that match `query` in the fields of `scope`.
    fn select(&self, ids: &Vec<NoteId>, scope: Scope, query: &str) -> (found: Vec<&Note>)
        requires
            ids@.no_duplicates(),
            ids@.to_set() == self@.notes.dom(),
        ensures
            self@.lists(
                listed_views(found@),
                Set::new(
                    |id: NoteId|
                        self@.notes.contains_key(id) && in_scope(scope, self@.notes[id], query@),
                ),
            ),
            query@.len() == 0 ==> self@.listed_by(listed_views(found@)),
    {
        let lowered = to_lowercase(query);
        let mut found: Vec<&Note> = Vec::new();
        let ghost mut chosen: Seq<NoteId> = Seq::empty();
        let mut i: usize = 0;
        while i < ids.len()
            invariant
                i <= ids.len(),
                ids@.no_duplicates(),
                ids@.to_set() == self@.notes.dom(),
                lowered@ == lowercase(query@),
                query@.len() == 0 ==> lowered@.len() == 0,
                chosen.len() == found@.len(),
                chosen.no_duplicates(),
                forall|k: int|
                    0 <= k < chosen.len() ==> self@.notes.contains_key(#[trigger] chosen[k])
                        && found@[k]@ == self@.notes[chosen[k]],
                forall|id: NoteId|
                    chosen.contains(id) <==> ids@.take(i as int).contains(id) && in_scope(
                        scope,
                        self@.notes[id],
                        query@,
                    ),
            decreases ids.len() - i,
        {
            let id = ids[i];
            proof {
                lemma_take_one_more(ids@, i as int);
                assert(ids@.to_set().contains(id));
            }
            match self.notes.get(&id) {
                Some(note) => {
                    let hit = match scope {
                        Scope::Title => contains(
                            to_lowercase(&note.title).as_str(),
                            lowered.as_str(),
                        ),
                        Scope::Content => contains(
                            to_lowercase(&note.content).as_str(),
                            lowered.as_str(),
                        ),
                        Scope::Either => contains(
                            to_lowercase(&note.title).as_str(),
                            lowered.as_str(),
                        ) || contains(to_lowercase(&note.content).as_str(), lowered.as_str()),
                        Scope::Everything => true,
                    };
                    proof {
                        if query@.len() == 0 {
                            assert(lowered@ =~= Seq::<char>::empty());
                            lemma_empty_is_substring(lowercase(note@.title));
                            lemma_empty_is_substring(lowercase(note@.content));
                        }
                        assert(hit == in_scope(scope, self@.notes[id], query@));
                    }
                    if hit {
                        let ghost before = chosen;
                        found.push(note);
                        proof {
                            chosen = before.push(id);
                            assert(chosen.take(before.len() as int) =~= before);
                            lemma_take_one_more(chosen, before.len() as int);
                            assert(chosen.take(chosen.len() as int) =~= chosen);
                        }
                    }
                },
                None => {},
            }
            i += 1;
        }
        proof {
            assert(ids@.take(i as int) =~= ids@);
            let picked = Set::new(
                |id: NoteId|
                    self@.notes.contains_key(id) && in_scope(scope, self@.notes[id], query@),
            );
            assert forall|id: NoteId| chosen.to_set().contains(id) <==> picked.contains(id) by {
                assert(ids@.contains(id) <==> ids@.to_set().contains(id));
            }
            assert(chosen.to_set() =~= picked);
            assert(self@.lists_by(listed_views(found@), picked, chosen));
            if query@.len() == 0 {
                assert(lowered@ =~= Seq::<char>::empty());
                assert forall|id: NoteId| self@.notes.contains_key(id) implies picked.contains(
                    id,
                ) by {
                    lemma_empty_is_substring(lowercase(self@.notes[id].title));
                    lemma_empty_is_substring(lowercase(self@.notes[id].content));
                }
                assert(picked =~= self@.notes.dom());
            }
        }
        found
    }

    /// All notes, each once, in no particular order.
    pub fn all_notes(&self) -> (notes: Vec<&Note>)
        ensures
            self@.listed_by(listed_views(notes@)),
    {
        let ids = self.all_note_ids();
        let notes = self.select(&ids, Scope::Everything, "");
        assert(self@.notes.dom() =~= Set::new(
            |id: NoteId|
                self@.notes.contains_key(id) && in_scope(
                    Scope::Everything,
                    self@.notes[id],
                    ""@,
                ),
        ));
        notes
    }

    /// The notes whose title holds `query`, case ignored; in no particular
    /// order. The empty query finds every note.
    pub fn search_by_title(&self, query: &str) -> (found: Vec<&Note>)
        ensures
            self@.lists(listed_views(found@), self@.matching_title(query@)),
            query@.len() == 0 ==> self@.listed_by(listed_views(found@)),
    {
        let ids = self.all_note_ids();
        let found = self.select(&ids, Scope::Title, query);
        assert(self@.matching_title(query@) =~= Set::new(
            |id: NoteId|
                self@.notes.contains_key(id) && in_scope(Scope::Title, self@.notes[id], query@),
        ));
        found
    }

    /// The notes whose content holds `query`, case ignored; in no
    /// particular order. The empty query finds every note.
    pub fn search_by_content(&self, query: &str) -> (found: Vec<&Note>)
        ensures
            self@.lists(listed_views(found@), self@.matching_content(query@)),
            query@.len() == 0 ==> self@.listed_by(listed_views(found@)),
    {
        let ids = self.all_note_ids();
        let found = self.select(&ids, Scope::Content, query);
        assert(self@.matching_content(query@) =~= Set::new(
            |id: NoteId|
                self@.notes.contains_key(id) && in_scope(Scope::Content, self@.notes[id], query@),
        ));
        found
    }

    /// The notes whose title or content holds `query`, case ignored; in no
    /// particular order. The empty query finds every note.
    pub fn search(&self, query: &str) -> (found: Vec<&Note>)
        ensures
            self@.lists(listed_views(found@), self@.matching(query@)),
            query@.len() == 0 ==> self@.listed_by(listed_views(found@)),
    {
        let ids = self.all_note_ids();
        let found = self.select(&ids, Scope::Either, query);
        assert(self@.matching(query@) =~= Set::new(
            |id: NoteId|
                self@.notes.contains_key(id) && in_scope(Scope::Either, self@.notes[id], query@),
        ));
        found
    }

    /// The notebook that holds the given notes and nothing else, with the
    /// given name and times, its reverse index made from the links of the
    /// notes. There is no such notebook, and the answer is `None`, if a note
    /// links to itself or twice to one target, or if two notes have the same
    /// identifier.
    pub fn from_notes(
        name: &str,
        created_at: Timestamp,
        modified_at: Timestamp,
        notes: Vec<Note>,
    ) -> (made: Option<Notebook>)
        ensures
            match made {
                Some(book) => {
                    &&& all_valid(owned_views(notes@))
                    &&& ids_distinct(owned_views(notes@))
                    &&& book@ == NotebookView::rebuilt(
                        name@,
                        created_at,
                        modified_at,
                        owned_views(notes@),
                    )
                    &&& book@.consistent()
                },
                None => !(all_valid(owned_views(notes@)) && ids_distinct(owned_views(notes@))),
            },
    {
        let mut book = Notebook {
            notes: HashMap::new(),
            backlinks: HashMap::new(),
            name: name.to_owned(),
            created_at,
            modified_at,
        };
        let ghost start = book@;
        let ghost all = owned_views(notes@);
        assert(start =~= NotebookView {
            name: name@,
            created_at,
            modified_at,
            notes: Map::empty(),
            backlinks: Set::empty(),
        });
        for note in it: notes
            invariant
                it.seq() == notes@,
                all == owned_views(notes@),
                start.modified_at == modified_at,
                start.notes == Map::<NoteId, NoteView>::empty(),
                book@ == start.with_notes(all.take(it.index())),
                all_valid(all.take(it.index())),
                ids_distinct(all.take(it.index())),
        {
            let ghost done = all.take(it.index());
            let ghost next = all.take(it.index() + 1);
            proof {
                assert(all[it.index()] == note@);
                assert(next.drop_last() =~= done);
                assert(next.last() == note@);
                lemma_with_notes(start, done);
            }
            if !note.is_valid() {
                assert(!all_valid(all));
                return None;
            }
            if book.notes.contains_key(&note.id) {
                proof {
                    assert(book@.notes.contains_key(note.id));
                    assert(names(done, note.id));
                    let j = choose|j: int|
                        0 <= j < done.len() && (#[trigger] done[j]).id == note.id;
                    assert(all[j].id == all[it.index()].id);
                    assert(!ids_distinct(all));
                }
                return None;
            }
            assert(!names(done, note.id)) by {
                assert(!book@.notes.contains_key(note.id));
            }
            book.insert_note(note);
            proof {
                assert(all_valid(next)) by {
                    assert forall|k: int| 0 <= k < next.len() implies (#[trigger] next[k]).valid(
                    ) by {
                        if k < done.len() {
                            assert(done[k] == next[k]);
                        }
                    }
                }
                assert(ids_distinct(next)) by {
                    assert forall|a: int, b: int|
                        0 <= a < next.len() && 0 <= b < next.len() && a != b implies (
                    #[trigger] next[a]).id != (#[trigger] next[b]).id by {
                        if a < done.len() && b < done.len() {
                            assert(done[a] == next[a]);
                            assert(done[b] == next[b]);
                        } else if a < done.len() {
                            assert(done[a] == next[a]);
                            assert(next[b] == note@);
                        } else {
                            assert(done[b] == next[b]);
                            assert(next[a] == note@);
                        }
                    }
                }
            }
        }
        proof {
            assert(all.take(all.len() as int) =~= all);
            lemma_rebuilt_consistent(name@, created_at, modified_at, all);
        }
        Some(book)
    }

    /// Takes the entries of the links that `source` has to each of `links`
    /// out of the reverse index.
    fn forget_links(&mut self, source: NoteId, links: &Vec<NoteId>)
        ensures
            final(self).notes == old(self).notes,
            final(self).name == old(self).name,
            final(self).created_at == old(self).created_at,
            final(self).modified_at == old(self).modified_at,
            index_pairs(final(self).backlinks@) == Set::new(
                |p: (NoteId, NoteId)|
                    index_pairs(old(self).backlinks@).contains(p) && !(p.0 == source
                        && links@.contains(p.1)),
            ),
    {
        let mut i: usize = 0;
        while i < links.len()
            invariant
                i <= links.len(),
                self.notes == old(self).notes,
                self.name == old(self).name,
                self.created_at == old(self).created_at,
                self.modified_at == old(self).modified_at,
                index_pairs(self.backlinks@) == Set::new(
                    |p: (NoteId, NoteId)|
                        index_pairs(old(self).backlinks@).contains(p) && !(p.0 == source
                            && links@.take(i as int).contains(p.1)),
                ),
            decreases links.len() - i,
        {
            let target = links[i];
            forget(&mut self.backlinks, source, target);
            proof {
                let after = links@.take(i + 1);
                lemma_take_one_more(links@, i as int);
                assert(index_pairs(self.backlinks@) =~= Set::new(
                    |p: (NoteId, NoteId)|
                        index_pairs(old(self).backlinks@).contains(p) && !(p.0 == source
                            && after.contains(p.1)),
                ));
            }
            i += 1;
        }
        assert(links@.take(i as int) =~= links@);
    }

    /// Removes the link to `target` from each note of `sources` that is in
    /// the notebook.
    fn drop_links_to(&mut self, sources: &Vec<NoteId>, target: NoteId, at: Timestamp)
        requires
            sources@.no_duplicates(),
        ensures
            final(self).backlinks == old(self).backlinks,
            final(self).name == old(self).name,
            final(self).created_at == old(self).created_at,
            final(self).modified_at == old(self).modified_at,
            links_dropped(old(self).notes@, final(self).notes@, sources@, target, at),
    {
        let mut i: usize = 0;
        while i < sources.len()
            invariant
                i <= sources.len(),
                sources@.no_duplicates(),
                self.backlinks == old(self).backlinks,
                self.name == old(self).name,
                self.created_at == old(self).created_at,
                self.modified_at == old(self).modified_at,
                links_dropped(old(self).notes@, self.notes@, sources@.take(i as int), target, at),
            decreases sources.len() - i,
        {
            let source = sources[i];
            let ghost before = self.notes@;
            match self.notes.entry(source) {
                Entry::Occupied(entry) => {
                    entry.into_mut().remove_link_at(&target, at);
                    assert(before.contains_key(source));
                    assert(self.notes@.contains_key(source));
                    assert(self.notes@ =~= before.insert(source, self.notes@[source]));
                    assert(self.notes@[source]@ == before[source]@.without_link(target, at));
                },
                Entry::Vacant(_) => {
                    assert(self.notes@ =~= before);
                },
            }
            proof {
                let seen = sources@.take(i as int);
                let seen_after = sources@.take(i + 1);
                lemma_take_one_more(sources@, i as int);
                assert(self.notes@.dom() =~= before.dom());
                assert forall|s: NoteId| #[trigger] self.notes@.contains_key(s) implies dropped_in(
                    old(self).notes@,
                    self.notes@,
                    seen_after,
                    target,
                    at,
                    s,
                ) by {
                    assert(before.contains_key(s));
                    assert(dropped_in(old(self).notes@, before, seen, target, at, s));
                    if s != source {
                        assert(self.notes@[s] == before[s]);
                    }
                }
            }
            i += 1;
        }
        assert(sources@.take(i as int) =~= sources@);
    }
}

/// The note under `id` in `after` is the one in `before`, without its link
/// to `target` since time `at` if `id` is one of `sources`.
spec fn dropped_in(
    before: Map<NoteId, Note>,
    after: Map<NoteId, Note>,
    sources: Seq<NoteId>,
    target: NoteId,
    at: Timestamp,
    id: NoteId,
) -> bool {
    after[id]@ == (if sources.contains(id) {
        before[id]@.without_link(target, at)
    } else {
        before[id]@
    })
}

/// `after` holds the notes of `before`, those of `sources` without their
/// link to `target` since time `at`.
spec fn links_dropped(
    before: Map<NoteId, Note>,
    after: Map<NoteId, Note>,
    sources: Seq<NoteId>,
    target: NoteId,
    at: Timestamp,
) -> bool {
    &&& after.dom() == before.dom()
    &&& forall|id: NoteId| #[trigger]
        after.contains_key(id) ==> dropped_in(before, after, sources, target, at, id)
}

impl Clone for Notebook {
    fn clone(&self) -> (copy: Notebook)
        ensures
            copy@ == self@,
    {
        Notebook {
            notes: self.notes.clone(),
            backlinks: self.backlinks.clone(),
            name: self.name.clone(),
            created_at: self.created_at,
            modified_at: self.modified_at,
        }
    }
}

impl Default for Notebook {
    /// An empty notebook named "Untitled Notebook".
    fn default() -> (book: Notebook)
        ensures
            book@ == NotebookView::empty("Untitled Notebook"@, book@.created_at),
    {
        Notebook::new("Untitled Notebook")
    }
}

} // verus!
