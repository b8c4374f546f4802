//! Project ids: short names that commands accept in place of a project's name.

use vstd::prelude::*;
use crate::models::{ascii_lowercase, is_ascii_text, lower_of, to_lower};
use crate::slug::{alphanumeric, first_chars, is_slug_char};
use crate::text::{chars_of, string_of};

verus! {

/// Why a project id was refused.
#[derive(Debug, Clone, Copy, PartialEq, Eq, Structural)]
pub enum ProjectIdError {
    Empty,
    TooLong,
    InvalidCharacter,
}

/// Checks that a project id is not empty, takes at most 20 bytes, and holds
/// only letters, digits, `-` and `_`.
pub fn validate_project_id(id: &str) -> (r: Result<(), ProjectIdError>)
    ensures
        id@.len() == 0 ==> r == Err::<(), ProjectIdError>(ProjectIdError::Empty),
        id@.len() > 0 && id.len() > 20 ==> r == Err::<(), ProjectIdError>(
            ProjectIdError::TooLong,
        ),
        id@.len() > 0 && id.len() <= 20 ==> (r is Ok <==> forall|i: int|
            0 <= i < id@.len() ==> is_slug_char(#[trigger] id@[i])),
        r is Err ==> r == Err::<(), ProjectIdError>(ProjectIdError::Empty) || r == Err::<
            (),
            ProjectIdError,
        >(ProjectIdError::TooLong) || r == Err::<(), ProjectIdError>(
            ProjectIdError::InvalidCharacter,
        ),
{
    if id.is_empty() {
        return Err(ProjectIdError::Empty);
    }
    if id.len() > 20 {
        return Err(ProjectIdError::TooLong);
    }
    let v = chars_of(id);
    let mut i: usize = 0;
    while i < v.len()
        invariant
            i <= v.len(),
            v@ == id@,
            id@.len() > 0,
            id.len() <= 20,
            forall|k: int| 0 <= k < i ==> is_slug_char(#[trigger] v@[k]),
        decreases v.len() - i,
    {
        let c = v[i];
        if !(alphanumeric(c) || c == '-' || c == '_') {
            return Err(ProjectIdError::InvalidCharacter);
        }
        i = i + 1;
    }
    Ok(())
}

pub open spec fn is_word_separator(c: char) -> bool {
    c == ' ' || c == '-' || c == '_'
}

pub open spec fn has_separator(s: Seq<char>) -> bool {
    exists|i: int| 0 <= i < s.len() && is_word_separator(#[trigger] s[i])
}

/// The first character of each non-empty word, where words are separated by
/// spaces, `-` and `_`; `at_start` says whether a word starts here.
pub open spec fn initials(s: Seq<char>, at_start: bool) -> Seq<char>
    decreases s.len(),
{
    if s.len() == 0 {
        seq![]
    } else if is_word_separator(s[0]) {
        initials(s.drop_first(), true)
    } else if at_start {
        seq![s[0]] + initials(s.drop_first(), false)
    } else {
        initials(s.drop_first(), false)
    }
}

/// What a default id is made from, before lowercasing: the initials of up to
/// four words, or the first four characters of a single word.
pub open spec fn default_id_source(name: Seq<char>) -> Seq<char> {
    if has_separator(name) {
        first_chars(initials(name, true), 4)
    } else {
        first_chars(name, 4)
    }
}

/// The id given to a project created without one (`Pillar Task Tracker`
/// gives `ptt`, `website` gives `webs`).
pub fn generate_default_project_id(name: &str) -> (r: String)
    ensures
        r@ == lower_of(default_id_source(name@)),
        is_ascii_text(default_id_source(name@)) ==> r@ == ascii_lowercase(default_id_source(name@)),
{
    let v = chars_of(name);
    let mut out: Vec<char> = Vec::new();
    let mut at_start = true;
    let mut seen_separator = false;
    let mut i: usize = 0;
    assert(v@.skip(0) =~= v@);
    while i < v.len()
        invariant
            i <= v.len(),
            out@ + initials(v@.skip(i as int), at_start) == initials(v@, true),
            seen_separator == exists|k: int| 0 <= k < i && is_word_separator(#[trigger] v@[k]),
        decreases v.len() - i,
    {
        let c = v[i];
        let ghost rest = v@.skip(i as int);
        assert(rest[0] == c);
        assert(rest.drop_first() =~= v@.skip(i + 1));
        if c == ' ' || c == '-' || c == '_' {
            at_start = true;
            seen_separator = true;
        } else {
            if at_start {
                out.push(c);
                assert(out@ + initials(v@.skip(i + 1), false) =~= initials(v@, true));
            }
            at_start = false;
        }
        i = i + 1;
    }
    assert(v@.skip(v.len() as int) =~= Seq::<char>::empty());
    assert(out@ =~= initials(v@, true));
    let pick = if seen_separator {
        out
    } else {
        v
    };
    let n: usize = if pick.len() <= 4 {
        pick.len()
    } else {
        4
    };
    let src = string_of(&pick, 0, n);
    assert(pick@.subrange(0, n as int) =~= default_id_source(name@));
    to_lower(src.as_str())
}

} // verus!
