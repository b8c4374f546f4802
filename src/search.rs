//! Text search over entities: a query matches where some field contains it,
//! case ignored.

use vstd::prelude::*;
use crate::models::{lower_of, to_lower};
use crate::text::{chars_of, contains, find_at_or_after, lemma_find_from};

verus! {

/// Whether `part` occurs in `text` (the empty text occurs everywhere).
pub fn contains_text(text: &str, part: &str) -> (r: bool)
    ensures
        r == contains(text@, part@),
{
    let t = chars_of(text);
    let p = chars_of(part);
    let found = find_at_or_after(&t, &p, 0);
    proof {
        lemma_find_from(t@, p@, 0);
    }
    found.is_some()
}

/// Whether some field, already lowercased, contains the lowercased query.
pub fn matches_lowered(query_lower: &str, fields_lower: &Vec<String>) -> (r: bool)
    ensures
        r == exists|i: int|
            0 <= i < fields_lower.len() && contains(#[trigger] fields_lower@[i]@, query_lower@),
{
    let mut i: usize = 0;
    while i < fields_lower.len()
        invariant
            i <= fields_lower.len(),
            forall|k: int| 0 <= k < i ==> !contains(#[trigger] fields_lower@[k]@, query_lower@),
        decreases fields_lower.len() - i,
    {
        if contains_text(fields_lower[i].as_str(), query_lower) {
            return true;
        }
        i = i + 1;
    }
    false
}

/// Whether some field contains the query, case ignored.
pub fn matches_query(query: &str, fields: &Vec<String>) -> (r: bool)
    ensures
        r == exists|i: int|
            0 <= i < fields.len() && contains(lower_of(#[trigger] fields@[i]@), lower_of(query@)),
{
    let q = to_lower(query);
    let mut lowered: Vec<String> = Vec::new();
    let mut i: usize = 0;
    while i < fields.len()
        invariant
            i <= fields.len(),
            lowered.len() == i,
            forall|k: int| 0 <= k < i ==> (#[trigger] lowered@[k])@ == lower_of(fields@[k]@),
        decreases fields.len() - i,
    {
        lowered.push(to_lower(fields[i].as_str()));
        i = i + 1;
    }
    let r = matches_lowered(q.as_str(), &lowered);
    assert(r == exists|k: int|
        0 <= k < fields.len() && contains(lower_of(#[trigger] fields@[k]@), lower_of(query@))) by {
        if r {
            let k = choose|k: int| 0 <= k < lowered.len() && contains(#[trigger] lowered@[k]@, q@);
            assert(contains(lower_of(fields@[k]@), lower_of(query@)));
        } else {
            assert forall|k: int| 0 <= k < fields.len() implies !contains(
                lower_of(#[trigger] fields@[k]@),
                lower_of(query@),
            ) by {
                assert(!contains(lowered@[k]@, q@));
            }
        }
    }
    r
}

} // verus!
