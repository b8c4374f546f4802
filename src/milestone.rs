//! Milestone file names: `<slug of the title>.md`.

use vstd::prelude::*;
use crate::models::{ascii_lowercase, is_ascii_text, lower_of, to_lower};
use crate::slug::{ascii_classified, slug, slugify};

verus! {

/// The file name part made from a milestone title: lowercased, then slugged
/// (`v1.0` gives `v1-0`).
pub fn sanitize_filename(s: &str) -> (r: String)
    ensures
        r@ == slug(lower_of(s@)),
        is_ascii_text(s@) ==> lower_of(s@) == ascii_lowercase(s@),
        ascii_classified(lower_of(s@)),
{
    let lowered = to_lower(s);
    slugify(lowered.as_str())
}

} // verus!
