// SPDX-License-Identifier: AGPL-3.0-or-later
//! The notebook as mathematical values: its notes, the reverse index of
//! their links, and what each operation makes of them.

use vstd::prelude::*;
use crate::clock::Timestamp;
use crate::ident::NoteId;
use crate::text::{lowercase, matches_ignoring_case};
use crate::note::{
    lemma_remove_value, lemma_with_link_idempotent, lemma_with_link_valid,
    lemma_without_link_valid, NoteView,
};

verus! {

/// What a notebook is, as mathematical values.
#[verifier::ext_equal]
pub struct NotebookView {
    pub name: Seq<char>,
    pub created_at: Timestamp,
    pub modified_at: Timestamp,
    /// The notes, each under the identifier it was stored by.
    pub notes: Map<NoteId, NoteView>,
    /// The reverse index: the pair `(source, target)` stands here when
    /// `source` is recorded as linking to `target`.
    pub backlinks: Set<(NoteId, NoteId)>,
}

impl NotebookView {
    /// The notebook without notes, created at time `at`.
    pub open spec fn empty(name: Seq<char>, at: Timestamp) -> NotebookView {
        NotebookView {
            name,
            created_at: at,
            modified_at: at,
            notes: Map::empty(),
            backlinks: Set::empty(),
        }
    }

    /// The note `source` is in the notebook and links to `target`.
    pub open spec fn links_to(self, source: NoteId, target: NoteId) -> bool {
        self.notes.contains_key(source) && self.notes[source].links.contains(target)
    }

    /// The notes recorded as linking to `target`.
    pub open spec fn sources_of(self, target: NoteId) -> Set<NoteId> {
        Set::new(|source: NoteId| self.backlinks.contains((source, target)))
    }

    /// Every note is stored under its own identifier.
    pub open spec fn keyed(self) -> bool {
        forall|id: NoteId| self.notes.contains_key(id) ==> (#[trigger] self.notes[id]).id == id
    }

    /// No note links to itself or to one target twice.
    pub open spec fn notes_valid(self) -> bool {
        forall|id: NoteId| self.notes.contains_key(id) ==> (#[trigger] self.notes[id]).valid()
    }

    /// Every link of every note is recorded in the reverse index.
    pub open spec fn indexed(self) -> bool {
        forall|source: NoteId, target: NoteId| #[trigger]
            self.links_to(source, target) ==> self.backlinks.contains((source, target))
    }

    /// Every entry of the reverse index is a link of a note that is there.
    pub open spec fn exact(self) -> bool {
        forall|source: NoteId, target: NoteId| #[trigger]
            self.backlinks.contains((source, target)) ==> self.links_to(source, target)
    }

    /// The notes are sound and the reverse index misses none of their links.
    pub open spec fn wf(self) -> bool {
        self.keyed() && self.notes_valid() && self.indexed()
    }

    /// The reverse index holds the links of the notes, all of them and
    /// nothing else.
    pub open spec fn consistent(self) -> bool {
        self.wf() && self.exact()
    }

    /// The notebook with `at` as the time of its last change.
    pub open spec fn touched(self, at: Timestamp) -> NotebookView {
        NotebookView { modified_at: at, ..self }
    }

    /// The notebook after `note` was put in at time `at`: it stands under its
    /// identifier, in place of any note that stood there. The entries of
    /// the links of a note that it replaces leave the reverse index, and
    /// each of its own links is recorded.
    pub open spec fn with_note(self, note: NoteView, at: Timestamp) -> NotebookView {
        NotebookView {
            notes: self.notes.insert(note.id, note),
            backlinks: Set::new(
                |p: (NoteId, NoteId)|
                    if p.0 == note.id && note.links.contains(p.1) {
                        true
                    } else {
                        self.backlinks.contains(p) && !(p.0 == note.id && self.links_to(
                            note.id,
                            p.1,
                        ))
                    },
            ),
            modified_at: at,
            ..self
        }
    }

    /// The notebook after the note under `id` was taken out at time `at`.
    /// The entries of its own links leave the index, as do all entries that
    /// point at `id`; each note recorded as a source of `id` loses its link
    /// to `id` and, if it had one, gets `at` as the time of its last change.
    pub open spec fn without_note(self, id: NoteId, at: Timestamp) -> NotebookView {
        NotebookView {
            notes: Map::new(
                |source: NoteId| source != id && self.notes.contains_key(source),
                |source: NoteId|
                    if self.backlinks.contains((source, id)) {
                        self.notes[source].without_link(id, at)
                    } else {
                        self.notes[source]
                    },
            ),
            backlinks: Set::new(
                |p: (NoteId, NoteId)|
                    self.backlinks.contains(p) && p.1 != id && !(p.0 == id
                        && self.notes[id].links.contains(p.1)),
            ),
            modified_at: at,
            ..self
        }
    }

    /// The notebook after a link from `from` to `to` was asked for at time
    /// `at`. The note takes the link unless it has it already; the reverse
    /// index records it. Asking a note to link to itself changes nothing
    /// but the notebook's time of change.
    pub open spec fn linked(self, from: NoteId, to: NoteId, at: Timestamp) -> NotebookView {
        NotebookView {
            notes: self.notes.insert(from, self.notes[from].with_link(to, at)),
            backlinks: if from != to {
                self.backlinks.insert((from, to))
            } else {
                self.backlinks
            },
            modified_at: at,
            ..self
        }
    }

    /// The notebook after the link from `from` to `to` was taken away at
    /// time `at`, in the note and in the reverse index.
    pub open spec fn unlinked(self, from: NoteId, to: NoteId, at: Timestamp) -> NotebookView {
        NotebookView {
            notes: self.notes.insert(from, self.notes[from].without_link(to, at)),
            backlinks: self.backlinks.remove((from, to)),
            modified_at: at,
            ..self
        }
    }

    /// The notebook after the notes of `notes` were put in one after the
    /// other, each at the time `self.modified_at`.
    pub open spec fn with_notes(self, notes: Seq<NoteView>) -> NotebookView
        decreases notes.len(),
    {
        if notes.len() == 0 {
            self
        } else {
            self.with_notes(notes.drop_last()).with_note(notes.last(), self.modified_at)
        }
    }

    /// The notebook that holds the given notes and nothing else, its reverse
    /// index made from their links.
    pub open spec fn rebuilt(
        name: Seq<char>,
        created_at: Timestamp,
        modified_at: Timestamp,
        notes: Seq<NoteView>,
    ) -> NotebookView {
        (NotebookView {
            name,
            created_at,
            modified_at,
            notes: Map::empty(),
            backlinks: Set::empty(),
        }).with_notes(notes)
    }

    /// The notebook after the note under `id` was replaced by `note` at time
    /// `at`, the reverse index left as it is.
    pub open spec fn with_edited(self, id: NoteId, note: NoteView, at: Timestamp) -> NotebookView {
        NotebookView { notes: self.notes.insert(id, note), modified_at: at, ..self }
    }

    /// The identifiers of the notes whose title matches `query`, case
    /// ignored.
    pub open spec fn matching_title(self, query: Seq<char>) -> Set<NoteId> {
        Set::new(
            |id: NoteId|
                self.notes.contains_key(id) && matches_ignoring_case(self.notes[id].title, query),
        )
    }

    /// The identifiers of the notes whose content matches `query`, case
    /// ignored.
    pub open spec fn matching_content(self, query: Seq<char>) -> Set<NoteId> {
        Set::new(
            |id: NoteId|
                self.notes.contains_key(id) && matches_ignoring_case(
                    self.notes[id].content,
                    query,
                ),
        )
    }

    /// The identifiers of the notes whose title or content matches `query`,
    /// case ignored.
    pub open spec fn matching(self, query: Seq<char>) -> Set<NoteId> {
        self.matching_title(query).union(self.matching_content(query))
    }

    /// `listing` holds each note of the notebook once, in some order.
    pub open spec fn listed_by(self, listing: Seq<NoteView>) -> bool {
        self.lists(listing, self.notes.dom())
    }

    /// `listing` holds the notes stored under the identifiers of `picked`,
    /// each once, in some order.
    pub open spec fn lists(self, listing: Seq<NoteView>, picked: Set<NoteId>) -> bool {
        exists|ids: Seq<NoteId>| self.lists_by(listing, picked, ids)
    }

    /// `listing` holds, place by place, the notes stored under `ids`, and
    /// `ids` names each identifier of `picked` once.
    pub open spec fn lists_by(
        self,
        listing: Seq<NoteView>,
        picked: Set<NoteId>,
        ids: Seq<NoteId>,
    ) -> bool {
        &&& ids.no_duplicates()
        &&& ids.to_set() == picked
        &&& ids.len() == listing.len()
        &&& forall|i: int|
            0 <= i < ids.len() ==> self.notes.contains_key(#[trigger] ids[i]) && listing[i]
                == self.notes[ids[i]]
    }
}

/// A search ignores the case of the query: two queries with the same
/// lowercase form find the same notes.
pub proof fn lemma_search_ignores_case(book: NotebookView, first: Seq<char>, second: Seq<char>)
    ensures
        lowercase(first) == lowercase(second) ==> {
            &&& book.matching_title(first) == book.matching_title(second)
            &&& book.matching_content(first) == book.matching_content(second)
            &&& book.matching(first) == book.matching(second)
        },
{
    if lowercase(first) == lowercase(second) {
        assert(book.matching_title(first) =~= book.matching_title(second));
        assert(book.matching_content(first) =~= book.matching_content(second));
    }
}

/// `note` stands in the notebook under an identifier of `picked`.
pub open spec fn picks(book: NotebookView, picked: Set<NoteId>, note: NoteView) -> bool {
    exists|id: NoteId|
        picked.contains(id) && book.notes.contains_key(id) && #[trigger] book.notes[id] == note
}

/// What a listing is: every listed note is one of the picked notes, every
/// picked note is listed, and there are as many places as picked notes.
pub proof fn lemma_lists(book: NotebookView, listing: Seq<NoteView>, picked: Set<NoteId>)
    requires
        book.lists(listing, picked),
    ensures
        forall|i: int| 0 <= i < listing.len() ==> picks(book, picked, #[trigger] listing[i]),
        forall|id: NoteId| picked.contains(id) ==> listing.contains(#[trigger] book.notes[id]),
        picked.finite(),
        listing.len() == picked.len(),
{
    let ids = choose|ids: Seq<NoteId>| book.lists_by(listing, picked, ids);
    assert forall|i: int| 0 <= i < listing.len() implies picks(
        book,
        picked,
        #[trigger] listing[i],
    ) by {
        assert(ids.to_set().contains(ids[i]));
        assert(book.notes[ids[i]] == listing[i]);
    }
    assert forall|id: NoteId| picked.contains(id) implies listing.contains(
        #[trigger] book.notes[id],
    ) by {
        assert(ids.to_set().contains(id));
        let i = choose|i: int| 0 <= i < ids.len() && ids[i] == id;
        assert(listing[i] == book.notes[id]);
    }
    ids.unique_seq_to_set();
}

/// In a consistent notebook a note links to another exactly when the
/// reverse index names it among the other's sources.
pub proof fn lemma_links_mirror_backlinks(book: NotebookView, source: NoteId, target: NoteId)
    requires
        book.consistent(),
        book.notes.contains_key(source),
        book.notes.contains_key(target),
    ensures
        book.notes[source].links.contains(target) <==> book.sources_of(target).contains(source),
{
    assert(book.links_to(source, target) <==> book.backlinks.contains((source, target)));
}

/// Changing the time of the last change changes nothing else.
pub proof fn lemma_touched_keeps(book: NotebookView, at: Timestamp)
    ensures
        book.wf() ==> book.touched(at).wf(),
        book.exact() ==> book.touched(at).exact(),
{
    let after = book.touched(at);
    assert forall|s: NoteId, t: NoteId| after.links_to(s, t) == book.links_to(s, t) by {}
}

/// Putting in a valid note keeps the notebook well formed and the index
/// exact, also where the note takes the place of another.
pub proof fn lemma_with_note_keeps(book: NotebookView, note: NoteView, at: Timestamp)
    requires
        note.valid(),
    ensures
        book.wf() ==> book.with_note(note, at).wf(),
        book.consistent() ==> book.with_note(note, at).consistent(),
{
    let after = book.with_note(note, at);
    if book.wf() {
        assert forall|s: NoteId, t: NoteId| #[trigger]
            after.links_to(s, t) implies after.backlinks.contains((s, t)) by {
            if s != note.id {
                assert(book.links_to(s, t));
            }
        }
        if book.exact() {
            assert forall|s: NoteId, t: NoteId| #[trigger]
                after.backlinks.contains((s, t)) implies after.links_to(s, t) by {
                if !(s == note.id && note.links.contains(t)) {
                    assert(book.backlinks.contains((s, t)));
                    assert(book.links_to(s, t));
                }
            }
        }
    }
}

/// Taking a note out keeps the notebook well formed, and keeps the index
/// exact.
pub proof fn lemma_without_note_keeps(book: NotebookView, id: NoteId, at: Timestamp)
    requires
        book.wf(),
        book.notes.contains_key(id),
    ensures
        book.without_note(id, at).wf(),
        book.exact() ==> book.without_note(id, at).exact(),
{
    let after = book.without_note(id, at);
    assert forall|s: NoteId| after.notes.contains_key(s) implies (#[trigger] after.notes[s]).id == s
        && after.notes[s].valid() && (forall|t: NoteId|
        t != id ==> (after.notes[s].links.contains(t) <==> book.notes[s].links.contains(t))) by {
        assert(book.notes[s].valid());
        if book.backlinks.contains((s, id)) {
            lemma_without_link_valid(book.notes[s], id, at);
            if book.notes[s].links.contains(id) {
                lemma_remove_value(book.notes[s].links, id);
            }
        }
    }
    assert forall|s: NoteId, t: NoteId| #[trigger]
        after.links_to(s, t) implies after.backlinks.contains((s, t)) by {
        assert(after.notes.contains_key(s));
        if t == id {
            assert(book.notes[s].valid());
            if book.backlinks.contains((s, id)) {
                lemma_without_link_valid(book.notes[s], id, at);
            } else {
                assert(book.links_to(s, id));
            }
        } else {
            assert(book.links_to(s, t));
        }
    }
    if book.exact() {
        assert forall|s: NoteId, t: NoteId| #[trigger]
            after.backlinks.contains((s, t)) implies after.links_to(s, t) by {
            assert(book.links_to(s, t));
            assert(after.notes.contains_key(s));
        }
    }
}

/// After a note is taken out of a well-formed notebook, no note links to
/// it and the reverse index names no source for it.
pub proof fn lemma_without_note_leaves_no_reference(book: NotebookView, id: NoteId, at: Timestamp)
    requires
        book.wf(),
        book.notes.contains_key(id),
    ensures
        !book.without_note(id, at).notes.contains_key(id),
        forall|other: NoteId| !(#[trigger] book.without_note(id, at).links_to(other, id)),
        book.without_note(id, at).sources_of(id) == Set::<NoteId>::empty(),
{
    let after = book.without_note(id, at);
    assert forall|other: NoteId| !(#[trigger] after.links_to(other, id)) by {
        if after.notes.contains_key(other) {
            assert(book.notes[other].valid());
            if book.backlinks.contains((other, id)) {
                lemma_without_link_valid(book.notes[other], id, at);
            } else {
                assert(!book.links_to(other, id));
            }
        }
    }
    assert(after.sources_of(id) =~= Set::<NoteId>::empty());
}

/// Linking a note of a well-formed notebook keeps the notebook well
/// formed and the index exact, and no note comes to link to itself.
pub proof fn lemma_linked_keeps(book: NotebookView, from: NoteId, to: NoteId, at: Timestamp)
    requires
        book.wf(),
        book.notes.contains_key(from),
    ensures
        book.linked(from, to, at).wf(),
        book.exact() ==> book.linked(from, to, at).exact(),
        !book.linked(from, to, at).links_to(from, from),
        from != to ==> book.linked(from, to, at).links_to(from, to),
{
    let after = book.linked(from, to, at);
    let before = book.notes[from];
    assert(before.valid());
    assert(before.id == from);
    lemma_with_link_valid(before, to, at);
    assert forall|t: NoteId|
        before.with_link(to, at).links.contains(t) <==> before.links.contains(t) || (t == to
            && from != to) by {
        if !(before.links.contains(to) || to == before.id) {
            vstd::seq_lib::lemma_seq_contains_after_push(before.links, to, t);
        }
    }
    assert forall|s: NoteId, t: NoteId| #[trigger]
        after.links_to(s, t) implies after.backlinks.contains((s, t)) by {
        if !(s == from && t == to) {
            assert(book.links_to(s, t));
        }
    }
    if book.exact() {
        assert forall|s: NoteId, t: NoteId| #[trigger]
            after.backlinks.contains((s, t)) implies after.links_to(s, t) by {
            if !(s == from && t == to && from != to) {
                assert(book.links_to(s, t));
            }
        }
    }
}

/// Linking the same two notes a second time changes neither the links nor
/// the reverse index: only the notebook's own time of change moves on.
pub proof fn lemma_linked_idempotent(
    book: NotebookView,
    from: NoteId,
    to: NoteId,
    first: Timestamp,
    second: Timestamp,
)
    ensures
        book.linked(from, to, first).linked(from, to, second) == book.linked(
            from,
            to,
            first,
        ).touched(second),
{
    let once = book.linked(from, to, first);
    let twice = once.linked(from, to, second);
    lemma_with_link_idempotent(book.notes[from], to, first, second);
    assert(twice.notes =~= once.notes);
    assert(twice.backlinks =~= once.backlinks);
}

/// Taking a link away keeps a well-formed notebook well formed and an
/// exact index exact.
pub proof fn lemma_unlinked_keeps(book: NotebookView, from: NoteId, to: NoteId, at: Timestamp)
    requires
        book.wf(),
        book.notes.contains_key(from),
    ensures
        book.unlinked(from, to, at).wf(),
        book.exact() ==> book.unlinked(from, to, at).exact(),
        !book.unlinked(from, to, at).links_to(from, to),
{
    let after = book.unlinked(from, to, at);
    let before = book.notes[from];
    assert(before.valid());
    lemma_without_link_valid(before, to, at);
    if before.links.contains(to) {
        lemma_remove_value(before.links, to);
    }
    assert forall|s: NoteId, t: NoteId| #[trigger]
        after.links_to(s, t) implies after.backlinks.contains((s, t)) by {
        assert(book.links_to(s, t));
    }
    if book.exact() {
        assert forall|s: NoteId, t: NoteId| #[trigger]
            after.backlinks.contains((s, t)) implies after.links_to(s, t) by {
            assert(book.links_to(s, t));
        }
    }
}

/// Replacing a note by one with the same identifier and the same links
/// keeps the notebook well formed and the index exact: a change of title,
/// content, placement or attributes cannot disturb the links.
pub proof fn lemma_with_edited_keeps(book: NotebookView, id: NoteId, note: NoteView, at: Timestamp)
    requires
        book.notes.contains_key(id),
    ensures
        note.id == book.notes[id].id && note.links == book.notes[id].links ==> (book.wf()
            ==> book.with_edited(id, note, at).wf()) && (book.exact() ==> book.with_edited(
            id,
            note,
            at,
        ).exact()),
{
    if note.id == book.notes[id].id && note.links == book.notes[id].links {
        let after = book.with_edited(id, note, at);
        assert forall|s: NoteId, t: NoteId| after.links_to(s, t) == book.links_to(s, t) by {}
        if book.wf() {
            assert(book.notes[id].valid());
        }
    }
}

/// Some note of `notes` has the identifier `id`.
pub open spec fn names(notes: Seq<NoteView>, id: NoteId) -> bool {
    exists|i: int| 0 <= i < notes.len() && (#[trigger] notes[i]).id == id
}

/// Some note of `notes` has the identifier `source` and links to `target`.
pub open spec fn joins(notes: Seq<NoteView>, source: NoteId, target: NoteId) -> bool {
    exists|i: int|
        0 <= i < notes.len() && (#[trigger] notes[i]).id == source && notes[i].links.contains(
            target,
        )
}

/// The identifiers of `notes` are pairwise different.
pub open spec fn ids_distinct(notes: Seq<NoteView>) -> bool {
    forall|i: int, j: int|
        0 <= i < notes.len() && 0 <= j < notes.len() && i != j ==> (#[trigger] notes[i]).id != (
        #[trigger] notes[j]).id
}

/// Every note of `notes` is valid.
pub open spec fn all_valid(notes: Seq<NoteView>) -> bool {
    forall|i: int| 0 <= i < notes.len() ==> (#[trigger] notes[i]).valid()
}

/// What putting in a run of notes makes of a notebook, where the notes
/// have identifiers that differ from each other and from those in the
/// notebook: its name and times stay, a note stands under each identifier
/// of the run, and the links of every note of the run are recorded.
pub proof fn lemma_with_notes(book: NotebookView, notes: Seq<NoteView>)
    requires
        ids_distinct(notes),
        forall|i: int| 0 <= i < notes.len() ==> !book.notes.contains_key((#[trigger] notes[i]).id),
    ensures
        book.with_notes(notes).name == book.name,
        book.with_notes(notes).created_at == book.created_at,
        book.with_notes(notes).modified_at == book.modified_at,
        forall|id: NoteId| #[trigger]
            book.with_notes(notes).notes.contains_key(id) <==> book.notes.contains_key(id)
                || names(notes, id),
        forall|s: NoteId, t: NoteId| #[trigger]
            book.with_notes(notes).backlinks.contains((s, t)) <==> book.backlinks.contains((s, t))
                || joins(notes, s, t),
    decreases notes.len(),
{
    if notes.len() > 0 {
        let front = notes.drop_last();
        let last = notes.last();
        assert forall|i: int| 0 <= i < front.len() implies front[i] == notes[i] by {}
        lemma_with_notes(book, front);
        let mid = book.with_notes(front);
        let after = book.with_notes(notes);
        assert(after == mid.with_note(last, book.modified_at));
        assert(last == notes[notes.len() - 1]);
        assert(!mid.notes.contains_key(last.id)) by {
            if names(front, last.id) {
                let i = choose|i: int| 0 <= i < front.len() && (#[trigger] front[i]).id == last.id;
                assert(notes[i].id == notes[notes.len() - 1].id);
            }
        }
        assert forall|id: NoteId| names(notes, id) <==> names(front, id) || id == last.id by {
            if names(front, id) {
                let i = choose|i: int| 0 <= i < front.len() && (#[trigger] front[i]).id == id;
                assert(notes[i].id == id);
            }
            if id == last.id {
                assert(notes[notes.len() - 1].id == id);
            }
            if names(notes, id) {
                let i = choose|i: int| 0 <= i < notes.len() && (#[trigger] notes[i]).id == id;
                if i < front.len() {
                    assert(front[i].id == id);
                }
            }
        }
        assert forall|s: NoteId, t: NoteId|
            joins(notes, s, t) <==> joins(front, s, t) || (s == last.id && last.links.contains(
                t,
            )) by {
            if joins(front, s, t) {
                let i = choose|i: int|
                    0 <= i < front.len() && (#[trigger] front[i]).id == s
                        && front[i].links.contains(t);
                assert(notes[i].id == s && notes[i].links.contains(t));
            }
            if s == last.id && last.links.contains(t) {
                assert(notes[notes.len() - 1].id == s);
            }
            if joins(notes, s, t) {
                let i = choose|i: int|
                    0 <= i < notes.len() && (#[trigger] notes[i]).id == s
                        && notes[i].links.contains(t);
                if i < front.len() {
                    assert(front[i].id == s && front[i].links.contains(t));
                }
            }
        }
        assert forall|id: NoteId| #[trigger]
            after.notes.contains_key(id) <==> book.notes.contains_key(id) || names(
                notes,
                id,
            ) by {
            assert(mid.notes.contains_key(id) <==> book.notes.contains_key(id) || names(front, id));
        }
        assert forall|s: NoteId, t: NoteId| #[trigger]
            after.backlinks.contains((s, t)) <==> book.backlinks.contains((s, t)) || joins(
                notes,
                s,
                t,
            ) by {
            assert(mid.backlinks.contains((s, t)) <==> book.backlinks.contains((s, t)) || joins(
                front,
                s,
                t,
            ));
        }
    }
}

/// A notebook made from valid notes with pairwise different identifiers is
/// consistent, and holds each of them under its identifier.
pub proof fn lemma_rebuilt_consistent(
    name: Seq<char>,
    created_at: Timestamp,
    modified_at: Timestamp,
    notes: Seq<NoteView>,
)
    requires
        all_valid(notes),
        ids_distinct(notes),
    ensures
        NotebookView::rebuilt(name, created_at, modified_at, notes).consistent(),
        forall|i: int|
            0 <= i < notes.len() ==> NotebookView::rebuilt(
                name,
                created_at,
                modified_at,
                notes,
            ).notes.contains_key((#[trigger] notes[i]).id) && NotebookView::rebuilt(
                name,
                created_at,
                modified_at,
                notes,
            ).notes[notes[i].id] == notes[i],
    decreases notes.len(),
{
    let start = NotebookView {
        name,
        created_at,
        modified_at,
        notes: Map::empty(),
        backlinks: Set::empty(),
    };
    if notes.len() > 0 {
        let front = notes.drop_last();
        let last = notes.last();
        assert(all_valid(front) && ids_distinct(front)) by {
            assert forall|i: int| 0 <= i < front.len() implies front[i] == notes[i] by {}
        }
        lemma_rebuilt_consistent(name, created_at, modified_at, front);
        lemma_with_notes(start, front);
        let mid = start.with_notes(front);
        assert(!mid.notes.contains_key(last.id)) by {
            if names(front, last.id) {
                let i = choose|i: int| 0 <= i < front.len() && (#[trigger] front[i]).id == last.id;
                assert(notes[i].id == notes[notes.len() - 1].id);
            }
        }
        assert(last == notes[notes.len() - 1]);
        lemma_with_note_keeps(mid, last, modified_at);
        let after = start.with_notes(notes);
        assert(after == mid.with_note(last, modified_at));
        assert forall|i: int| 0 <= i < notes.len() implies after.notes.contains_key(
            (#[trigger] notes[i]).id,
        ) && after.notes[notes[i].id] == notes[i] by {
            if i < front.len() {
                assert(front[i] == notes[i]);
                assert(notes[i].id != notes[notes.len() - 1].id);
            }
        }
    }
}

/// A consistent notebook is given back by its notes: made anew from its
/// name, its two times and a listing of its notes, in whatever order, it is
/// the same notebook, reverse index included.
pub proof fn lemma_rebuilt_round_trip(book: NotebookView, listing: Seq<NoteView>)
    requires
        book.consistent(),
        book.listed_by(listing),
    ensures
        NotebookView::rebuilt(book.name, book.created_at, book.modified_at, listing) == book,
{
    let ids = choose|ids: Seq<NoteId>| book.lists_by(listing, book.notes.dom(), ids);
    let start = NotebookView {
        name: book.name,
        created_at: book.created_at,
        modified_at: book.modified_at,
        notes: Map::empty(),
        backlinks: Set::empty(),
    };
    let again = start.with_notes(listing);
    assert forall|i: int| 0 <= i < listing.len() implies (#[trigger] listing[i]).valid()
        && listing[i].id == ids[i] by {
        assert(book.notes.contains_key(ids[i]));
    }
    assert(ids_distinct(listing)) by {
        assert forall|i: int, j: int|
            0 <= i < listing.len() && 0 <= j < listing.len() && i != j implies (
        #[trigger] listing[i]).id != (#[trigger] listing[j]).id by {
            assert(listing[i].id == ids[i]);
            assert(listing[j].id == ids[j]);
        }
    }
    lemma_rebuilt_consistent(book.name, book.created_at, book.modified_at, listing);
    lemma_with_notes(start, listing);
    assert forall|id: NoteId| again.notes.contains_key(id) <==> book.notes.contains_key(id) by {
        if names(listing, id) {
            let i = choose|i: int| 0 <= i < listing.len() && (#[trigger] listing[i]).id == id;
            assert(book.notes.contains_key(ids[i]));
        }
        if book.notes.contains_key(id) {
            assert(ids.to_set().contains(id));
            let i = choose|i: int| 0 <= i < ids.len() && ids[i] == id;
            assert(listing[i].id == id);
        }
    }
    assert forall|id: NoteId| again.notes.contains_key(id) implies again.notes[id]
        == book.notes[id] by {
        assert(ids.to_set().contains(id));
        let i = choose|i: int| 0 <= i < ids.len() && ids[i] == id;
        assert(listing[i].id == id);
        assert(again.notes[listing[i].id] == listing[i]);
    }
    assert(again.notes =~= book.notes);
    assert forall|p: (NoteId, NoteId)| again.backlinks.contains(p) <==> book.backlinks.contains(
        p,
    ) by {
        assert(again.backlinks.contains((p.0, p.1)) <==> again.links_to(p.0, p.1));
        assert(book.backlinks.contains((p.0, p.1)) <==> book.links_to(p.0, p.1));
    }
    assert(again.backlinks =~= book.backlinks);
}

} // verus!
