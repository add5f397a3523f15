//! Lists of texts, seen as sequences of character sequences.

use vstd::prelude::*;

verus! {

/// The texts of a list of strings.
pub open spec fn texts(v: Seq<String>) -> Seq<Seq<char>> {
    v.map_values(|s: String| s@)
}

/// The texts of a list of character rows.
pub open spec fn rows(v: Seq<Vec<char>>) -> Seq<Seq<char>> {
    v.map_values(|r: Vec<char>| r@)
}

/// Appending a string appends its text.
pub broadcast proof fn lemma_texts_push(v: Seq<String>, s: String)
    ensures
        #[trigger] texts(v.push(s)) == texts(v).push(s@),
{
    assert(texts(v.push(s)) =~= texts(v).push(s@));
}

/// Appending a row appends its text.
pub broadcast proof fn lemma_rows_push(v: Seq<Vec<char>>, r: Vec<char>)
    ensures
        #[trigger] rows(v.push(r)) == rows(v).push(r@),
{
    assert(rows(v.push(r)) =~= rows(v).push(r@));
}

/// The text of an optional string.
pub open spec fn opt_text(s: Option<String>) -> Option<Seq<char>> {
    match s {
        Some(t) => Some(t@),
        None => None,
    }
}

pub broadcast group group_lists {
    lemma_texts_push,
    lemma_rows_push,
}

} // verus!
