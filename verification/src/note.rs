// SPDX-License-Identifier: AGPL-3.0-or-later
//! A note: text, placement, outgoing links and attributes.

use vstd::prelude::*;
use crate::attributes::Attributes;
use crate::clock::{now, Timestamp};
use crate::ident::{fresh_id, is_random_uuid, NoteId};

verus! {

/// A position on the canvas. Each coordinate is held as the bit pattern of
/// an IEEE 754 double, so that any coordinate is stored and handed back
/// unchanged.
#[derive(Debug, Clone, Copy, PartialEq, Eq)]
pub struct Point2D {
    pub x_bits: u64,
    pub y_bits: u64,
}

impl Point2D {
    /// The point with the given coordinates.
    pub fn new(x_bits: u64, y_bits: u64) -> (p: Point2D)
        ensures
            p == (Point2D { x_bits, y_bits }),
    {
        Point2D { x_bits, y_bits }
    }

    /// The point whose coordinates are both positive zero.
    pub fn origin() -> (p: Point2D)
        ensures
            p == (Point2D { x_bits: 0, y_bits: 0 }),
    {
        Point2D { x_bits: 0, y_bits: 0 }
    }
}

impl Default for Point2D {
    fn default() -> (p: Point2D)
        ensures
            p == (Point2D { x_bits: 0, y_bits: 0 }),
    {
        Point2D::origin()
    }
}

/// A single note of the knowledge graph.
#[derive(Debug)]
pub struct Note {
    /// Identifies the note; never changed by this library.
    pub id: NoteId,
    pub title: String,
    pub content: String,
    /// Where the note stands on the canvas; `None` while it is not placed.
    pub position: Option<Point2D>,
    /// Width and height on the canvas, as bit patterns of doubles.
    pub size: Option<(u64, u64)>,
    pub created_at: Timestamp,
    pub modified_at: Timestamp,
    /// The notes this note points to, in the order the links were made.
    pub links: Vec<NoteId>,
    /// The note this one falls back to; stored, not interpreted.
    pub prototype: Option<NoteId>,
    pub attributes: Attributes,
}

/// What a note is, as mathematical values.
#[verifier::ext_equal]
pub struct NoteView {
    pub id: NoteId,
    pub title: Seq<char>,
    pub content: Seq<char>,
    pub position: Option<Point2D>,
    pub size: Option<(u64, u64)>,
    pub created_at: Timestamp,
    pub modified_at: Timestamp,
    pub links: Seq<NoteId>,
    pub prototype: Option<NoteId>,
    pub attributes: Map<Seq<char>, serde_json::Value>,
}

impl View for Note {
    type V = NoteView;

    open spec fn view(&self) -> NoteView {
        NoteView {
            id: self.id,
            title: self.title@,
            content: self.content@,
            position: self.position,
            size: self.size,
            created_at: self.created_at,
            modified_at: self.modified_at,
            links: self.links@,
            prototype: self.prototype,
            attributes: self.attributes@,
        }
    }
}

impl NoteView {
    /// A note as it is right after creation at time `at`.
    pub open spec fn fresh(id: NoteId, title: Seq<char>, at: Timestamp) -> NoteView {
        NoteView {
            id,
            title,
            content: Seq::empty(),
            position: None,
            size: None,
            created_at: at,
            modified_at: at,
            links: Seq::empty(),
            prototype: None,
            attributes: Map::empty(),
        }
    }

    /// No target is linked twice, and the note does not link to itself.
    pub open spec fn valid(self) -> bool {
        self.links.no_duplicates() && !self.links.contains(self.id)
    }

    /// The note with `at` as the time of its last change.
    pub open spec fn touched(self, at: Timestamp) -> NoteView {
        NoteView { modified_at: at, ..self }
    }

    /// The note placed at `position`.
    pub open spec fn placed(self, position: Point2D) -> NoteView {
        NoteView { position: Some(position), ..self }
    }

    /// The note after a link to `target` was asked for at time `at`: nothing
    /// changes if the link exists or would point at the note itself.
    pub open spec fn with_link(self, target: NoteId, at: Timestamp) -> NoteView {
        if self.links.contains(target) || target == self.id {
            self
        } else {
            NoteView { links: self.links.push(target), modified_at: at, ..self }
        }
    }

    /// The note after the link to `target` was taken away at time `at`:
    /// nothing changes if there is no such link.
    pub open spec fn without_link(self, target: NoteId, at: Timestamp) -> NoteView {
        if self.links.contains(target) {
            NoteView { links: self.links.remove_value(target), modified_at: at, ..self }
        } else {
            self
        }
    }

    /// The note after `value` was stored under `key` at time `at`.
    pub open spec fn with_attribute(
        self,
        key: Seq<char>,
        value: serde_json::Value,
        at: Timestamp,
    ) -> NoteView {
        NoteView { attributes: self.attributes.insert(key, value), modified_at: at, ..self }
    }
}

/// Asking for a link never makes a note link to itself or to one target
/// twice.
pub proof fn lemma_with_link_valid(note: NoteView, target: NoteId, at: Timestamp)
    requires
        note.valid(),
    ensures
        note.with_link(target, at).valid(),
{
    if !(note.links.contains(target) || target == note.id) {
        let after = note.links.push(target);
        assert forall|i: int, j: int|
            0 <= i < after.len() && 0 <= j < after.len() && i != j implies after[i]
            != after[j] by {
            if i < note.links.len() && j < note.links.len() {
            } else if i < note.links.len() {
                assert(note.links.contains(note.links[i]));
            } else {
                assert(note.links.contains(note.links[j]));
            }
        }
        if after.contains(note.id) {
            let i = choose|i: int| 0 <= i < after.len() && after[i] == note.id;
            if i < note.links.len() {
                assert(note.links.contains(note.id));
            }
        }
    }
}

/// However a link is asked for, a note that does not link to itself still
/// does not afterwards.
pub proof fn lemma_with_link_never_self(note: NoteView, target: NoteId, at: Timestamp)
    requires
        !note.links.contains(note.id),
    ensures
        !note.with_link(target, at).links.contains(note.id),
{
    if !(note.links.contains(target) || target == note.id) {
        let after = note.links.push(target);
        if after.contains(note.id) {
            let i = choose|i: int| 0 <= i < after.len() && after[i] == note.id;
            if i < note.links.len() {
                assert(note.links.contains(note.id));
            }
        }
    }
}

/// Asking twice for the same link gives what asking once gives.
pub proof fn lemma_with_link_idempotent(
    note: NoteView,
    target: NoteId,
    first: Timestamp,
    second: Timestamp,
)
    ensures
        note.with_link(target, first).with_link(target, second) == note.with_link(target, first),
{
    if !(note.links.contains(target) || target == note.id) {
        let after = note.links.push(target);
        assert(after[after.len() - 1] == target);
        assert(after.contains(target));
    }
}

/// What taking the first `target` out of `links` leaves: every other value
/// stays, in order, and `target` stays only if it stood there twice.
pub proof fn lemma_remove_value(links: Seq<NoteId>, target: NoteId)
    requires
        links.contains(target),
    ensures
        links.remove_value(target).len() == links.len() - 1,
        forall|other: NoteId|
            other != target ==> (links.remove_value(target).contains(other) <==> links.contains(
                other,
            )),
        links.no_duplicates() ==> links.remove_value(target).no_duplicates()
            && !links.remove_value(target).contains(target),
{
    links.index_of_first_ensures(target);
    let at = links.index_of_first(target).unwrap();
    let after = links.remove(at);
    assert(after == links.remove_value(target));
    links.remove_ensures(at);
    assert forall|other: NoteId| other != target implies (after.contains(other) <==> links.contains(
        other,
    )) by {
        if after.contains(other) {
            let i = choose|i: int| 0 <= i < after.len() && after[i] == other;
            if i < at {
                assert(links[i] == other);
            } else {
                assert(links[i + 1] == other);
            }
        }
        if links.contains(other) {
            let i = choose|i: int| 0 <= i < links.len() && links[i] == other;
            if i < at {
                assert(after[i] == other);
            } else {
                assert(after[i - 1] == other);
            }
        }
    }
    if links.no_duplicates() {
        assert forall|i: int, j: int|
            0 <= i < after.len() && 0 <= j < after.len() && i != j implies after[i]
            != after[j] by {
            let a = if i < at { i } else { i + 1 };
            let b = if j < at { j } else { j + 1 };
            assert(after[i] == links[a]);
            assert(after[j] == links[b]);
        }
        if after.contains(target) {
            let i = choose|i: int| 0 <= i < after.len() && after[i] == target;
            let a = if i < at { i } else { i + 1 };
            assert(after[i] == links[a]);
        }
    }
}

/// Taking a link away keeps a valid note valid, and the target is gone.
pub proof fn lemma_without_link_valid(note: NoteView, target: NoteId, at: Timestamp)
    requires
        note.valid(),
    ensures
        note.without_link(target, at).valid(),
        !note.without_link(target, at).links.contains(target),
{
    if note.links.contains(target) {
        lemma_remove_value(note.links, target);
    }
}

/// The index of the first `target` in `links`.
fn position_of(links: &Vec<NoteId>, target: NoteId) -> (found: Option<usize>)
    ensures
        match found {
            Some(at) => at < links@.len() && links@.contains(target) && links@.index_of_first(
                target,
            ) == Some(at as int),
            None => !links@.contains(target),
        },
{
    let mut i: usize = 0;
    while i < links.len()
        invariant
            i <= links.len(),
            forall|j: int| 0 <= j < i ==> links@[j] != target,
        decreases links.len() - i,
    {
        if links[i] == target {
            proof {
                links@.index_of_first_ensures(target);
            }
            return Some(i);
        }
        i += 1;
    }
    None
}

impl Clone for Note {
    fn clone(&self) -> (copy: Note)
        ensures
            copy@ == self@,
    {
        Note {
            id: self.id,
            title: self.title.clone(),
            content: self.content.clone(),
            position: self.position,
            size: self.size,
            created_at: self.created_at,
            modified_at: self.modified_at,
            links: self.links.clone(),
            prototype: self.prototype,
            attributes: self.attributes.clone(),
        }
    }
}

impl Note {
    /// A new note with the given title and identifier, and `at` as both
    /// timestamps; everything else is empty.
    pub fn new_at(title: &str, id: NoteId, at: Timestamp) -> (note: Note)
        ensures
            note@ == NoteView::fresh(id, title@, at),
    {
        Note {
            id,
            title: title.to_owned(),
            content: String::new(),
            position: None,
            size: None,
            created_at: at,
            modified_at: at,
            links: Vec::new(),
            prototype: None,
            attributes: Attributes::new(),
        }
    }

    /// A new note with the given title, a fresh identifier and the current
    /// time as both timestamps; everything else is empty.
    pub fn new(title: &str) -> (note: Note)
        ensures
            note@ == NoteView::fresh(note.id, title@, note.created_at),
            is_random_uuid(note.id),
    {
        Note::new_at(title, fresh_id(), now())
    }

    /// The note, placed at the given coordinates.
    pub fn with_position(self, x_bits: u64, y_bits: u64) -> (note: Note)
        ensures
            note@ == self@.placed(Point2D { x_bits, y_bits }),
    {
        let mut note = self;
        note.position = Some(Point2D::new(x_bits, y_bits));
        note
    }

    /// Sets the time of the last change to `at`.
    pub fn touch_at(&mut self, at: Timestamp)
        ensures
            final(self)@ == old(self)@.touched(at),
    {
        self.modified_at = at;
    }

    /// Sets the time of the last change to the current time.
    pub fn touch(&mut self)
        ensures
            final(self)@ == old(self)@.touched(final(self).modified_at),
    {
        self.touch_at(now());
    }

    /// Adds a link to `target` at time `at`, unless the link exists already
    /// or `target` is this note itself: then nothing changes, the time of
    /// the last change included.
    pub fn add_link_at(&mut self, target: NoteId, at: Timestamp)
        ensures
            final(self)@ == old(self)@.with_link(target, at),
            old(self)@.valid() ==> final(self)@.valid(),
    {
        if target != self.id && position_of(&self.links, target).is_none() {
            self.links.push(target);
            self.touch_at(at);
        }
        proof {
            if old(self)@.valid() {
                lemma_with_link_valid(old(self)@, target, at);
            }
        }
    }

    /// Adds a link to `target`, unless it exists already or `target` is this
    /// note itself. A link that is added sets the time of the last change
    /// to the current time.
    pub fn add_link(&mut self, target: NoteId)
        ensures
            final(self)@ == old(self)@.with_link(target, final(self).modified_at),
            old(self)@.valid() ==> final(self)@.valid(),
    {
        self.add_link_at(target, now());
    }

    /// Removes the link to `target` at time `at` and says whether there was
    /// one; if there was none, nothing changes.
    pub fn remove_link_at(&mut self, target: &NoteId, at: Timestamp) -> (removed: bool)
        ensures
            removed == old(self)@.links.contains(*target),
            final(self)@ == old(self)@.without_link(*target, at),
            old(self)@.valid() ==> final(self)@.valid() && !final(self)@.links.contains(*target),
    {
        match position_of(&self.links, *target) {
            Some(place) => {
                self.links.remove(place);
                self.touch_at(at);
                proof {
                    if old(self)@.valid() {
                        lemma_without_link_valid(old(self)@, *target, at);
                    }
                }
                true
            },
            None => false,
        }
    }

    /// Removes the link to `target` and says whether there was one. A link
    /// that is removed sets the time of the last change to the current
    /// time.
    pub fn remove_link(&mut self, target: &NoteId) -> (removed: bool)
        ensures
            removed == old(self)@.links.contains(*target),
            final(self)@ == old(self)@.without_link(*target, final(self).modified_at),
            old(self)@.valid() ==> final(self)@.valid() && !final(self)@.links.contains(*target),
    {
        self.remove_link_at(target, now())
    }

    /// Whether the links hold no target twice and not the note itself.
    pub fn is_valid(&self) -> (valid: bool)
        ensures
            valid == self@.valid(),
    {
        let mut i: usize = 0;
        while i < self.links.len()
            invariant
                i <= self.links.len(),
                forall|j: int| 0 <= j < i ==> self.links@[j] != self.id,
                forall|j: int, k: int| 0 <= j < k < i ==> self.links@[j] != self.links@[k],
            decreases self.links.len() - i,
        {
            let target = self.links[i];
            if target == self.id {
                return false;
            }
            match position_of(&self.links, target) {
                Some(first) => {
                    proof {
                        self.links@.index_of_first_ensures(target);
                    }
                    if first != i {
                        return false;
                    }
                },
                None => {
                    assert(self.links@[i as int] == target);
                    return false;
                },
            }
            i += 1;
        }
        true
    }

    /// Whether this note links to `target`.
    pub fn links_to(&self, target: &NoteId) -> (linked: bool)
        ensures
            linked == self@.links.contains(*target),
    {
        position_of(&self.links, *target).is_some()
    }

    /// Stores `value` under `key` at time `at`, in place of any value that
    /// stood there.
    pub fn set_attribute_at(&mut self, key: &str, value: serde_json::Value, at: Timestamp)
        ensures
            final(self)@ == old(self)@.with_attribute(key@, value, at),
    {
        self.attributes.insert(key.to_owned(), value);
        self.touch_at(at);
    }

    /// Stores `value` under `key`, in place of any value that stood there,
    /// and sets the time of the last change to the current time.
    pub fn set_attribute(&mut self, key: &str, value: serde_json::Value)
        ensures
            final(self)@ == old(self)@.with_attribute(key@, value, final(self).modified_at),
    {
        self.set_attribute_at(key, value, now());
    }

    /// The value stored under `key`, if there is one.
    pub fn get_attribute(&self, key: &str) -> (found: Option<&serde_json::Value>)
        ensures
            match found {
                Some(value) => self@.attributes.contains_key(key@) && self@.attributes[key@]
                    == *value,
                None => !self@.attributes.contains_key(key@),
            },
    {
        self.attributes.get(key)
    }
}

} // verus!
