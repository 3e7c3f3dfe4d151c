// SPDX-License-Identifier: AGPL-3.0-or-later
//! Case folding and substring search on text.

use vstd::prelude::*;

verus! {

/// The lowercase form of a text, as `str::to_lowercase` computes it.
pub uninterp spec fn lowercase(s: Seq<char>) -> Seq<char>;

/// `needle` stands in `hay` at position `at`.
pub open spec fn occurs_at(hay: Seq<char>, needle: Seq<char>, at: int) -> bool {
    &&& 0 <= at
    &&& at + needle.len() <= hay.len()
    &&& hay.subrange(at, at + needle.len()) == needle
}

/// `needle` stands somewhere in `hay`.
pub open spec fn has_substring(hay: Seq<char>, needle: Seq<char>) -> bool {
    exists|at: int| occurs_at(hay, needle, at)
}

/// `field` matches `query` when case is ignored: the lowercase query stands
/// in the lowercase field.
pub open spec fn matches_ignoring_case(field: Seq<char>, query: Seq<char>) -> bool {
    has_substring(lowercase(field), lowercase(query))
}

/// The empty text stands in every text.
pub proof fn lemma_empty_is_substring(hay: Seq<char>)
    ensures
        has_substring(hay, Seq::<char>::empty()),
{
    assert(hay.subrange(0, 0) =~= Seq::<char>::empty());
    assert(occurs_at(hay, Seq::<char>::empty(), 0));
}

/// `str::to_lowercase`. The result is named, not spelled out: it is fixed by
/// the Unicode case tables of the standard library. That the empty text
/// stays empty is the one fact stated of it.
#[verifier::external_body]
pub(crate) fn to_lowercase(s: &str) -> (r: String)
    ensures
        r@ == lowercase(s@),
        s@.len() == 0 ==> r@.len() == 0,
{
    s.to_lowercase()
}

/// `str::contains` with a string pattern: whether `needle` is a contiguous
/// part of `hay`.
#[verifier::external_body]
pub(crate) fn contains(hay: &str, needle: &str) -> (r: bool)
    ensures
        r == has_substring(hay@, needle@),
{
    hay.contains(needle)
}

} // verus!
