//! Issue file names: `<number>-<slug of the title>.md`.

use vstd::prelude::*;
use crate::models::{ascii_lowercase, is_ascii_text, lower_of, to_lower};
use crate::slug::{ascii_classified, first_chars, slug, slug_of};
use crate::text::{
    chars_of, find, find_at_or_after, lemma_find_from, matches_at, lemma_find_from_skip,
    string_of, strings_view, trim, trim_bounds,
};

verus! {

/// The file-name part made from an issue title: lowercased, cut to 40
/// characters, then slugged.
pub fn sanitize_filename(s: &str) -> (r: String)
    ensures
        r@ == slug(first_chars(lower_of(s@), 40)),
        is_ascii_text(s@) ==> lower_of(s@) == ascii_lowercase(s@),
        ascii_classified(first_chars(lower_of(s@), 40)),
{
    let lowered = to_lower(s);
    sanitize_lowercase(lowered.as_str())
}

/// The file-name part made from a title already in lowercase.
pub fn sanitize_lowercase(lowered: &str) -> (r: String)
    ensures
        r@ == slug(first_chars(lowered@, 40)),
        ascii_classified(first_chars(lowered@, 40)),
{
    let v = chars_of(lowered);
    let n: usize = if v.len() <= 40 {
        v.len()
    } else {
        40
    };
    assert(v@.take(n as int) =~= first_chars(v@, 40));
    slug_of(&v, n)
}

/// The text before the first `-`, or all of it.
pub open spec fn id_part(stem: Seq<char>) -> Seq<char> {
    match find(stem, seq!['-']) {
        Some(k) => stem.take(k),
        None => stem,
    }
}

/// The number of an issue, read from its file stem (`001-fix-bug` gives
/// `001`); `unknown` where the file has no readable stem.
pub fn extract_issue_id(file_stem: Option<&str>) -> (r: String)
    ensures
        match file_stem {
            Some(s) => r@ == id_part(s@),
            None => r@ == seq!['u', 'n', 'k', 'n', 'o', 'w', 'n'],
        },
{
    match file_stem {
        None => {
            let v: Vec<char> = vec!['u', 'n', 'k', 'n', 'o', 'w', 'n'];
            let r = string_of(&v, 0, 7);
            assert(v@.subrange(0, 7) =~= seq!['u', 'n', 'k', 'n', 'o', 'w', 'n']);
            r
        },
        Some(s) => {
            let v = chars_of(s);
            let dash: Vec<char> = vec!['-'];
            assert(dash@ =~= seq!['-']);
            match find_at_or_after(&v, &dash, 0) {
                Some(k) => {
                    proof {
                        lemma_find_from(v@, dash@, 0);
                    }
                    let r = string_of(&v, 0, k);
                    assert(v@.subrange(0, k as int) =~= v@.take(k as int));
                    r
                },
                None => {
                    let r = string_of(&v, 0, v.len());
                    assert(v@.subrange(0, v.len() as int) =~= v@);
                    r
                },
            }
        },
    }
}

/// The pieces of `s` between the occurrences of `sep`, empty ones included.
pub open spec fn pieces(s: Seq<char>, sep: char) -> Seq<Seq<char>>
    decreases s.len(),
{
    if find(s, seq![sep]) is Some && 0 <= find(s, seq![sep])->0 < s.len() {
        let k = find(s, seq![sep])->0;
        seq![s.take(k)] + pieces(s.skip(k + 1), sep)
    } else {
        seq![s]
    }
}

/// The tags of a comma-separated list, each trimmed (`bug, ui` gives `bug` and `ui`).
pub fn parse_tags(list: &str) -> (r: Vec<String>)
    ensures
        strings_view(r@) == pieces(list@, ',').map_values(|p: Seq<char>| trim(p)),
{
    let v = chars_of(list);
    let comma: Vec<char> = vec![','];
    assert(comma@ =~= seq![',']);
    let ghost all = pieces(v@, ',').map_values(|p: Seq<char>| trim(p));
    let mut r: Vec<String> = Vec::new();
    let mut i: usize = 0;
    assert(v@.skip(0) =~= v@);
    loop
        invariant
            i <= v.len(),
            v@ == list@,
            comma@ == seq![','],
            all == pieces(v@, ',').map_values(|p: Seq<char>| trim(p)),
            strings_view(r@) + pieces(v@.skip(i as int), ',').map_values(|p: Seq<char>| trim(p))
                == all,
        decreases v.len() - i,
    {
        let ghost rest = v@.skip(i as int);
        proof {
            lemma_find_from_skip(v@, comma@, i as int, 0);
            lemma_find_from(v@, comma@, i as int);
        }
        match find_at_or_after(&v, &comma, i) {
            Some(k) => {
                assert(v@.subrange(k as int, k + 1)[0] == v@[k as int]);
                let (a, b) = trim_bounds(&v, i, k);
                let ghost before = strings_view(r@);
                r.push(string_of(&v, a, b));
                assert(rest.take(k - i) =~= v@.subrange(i as int, k as int));
                assert(rest.skip(k - i + 1) =~= v@.skip(k + 1));
                assert(pieces(rest, ',') == seq![rest.take(k - i)] + pieces(v@.skip(k + 1), ','));
                assert(strings_view(r@) =~= before.push(trim(v@.subrange(i as int, k as int))));
                assert(pieces(rest, ',').map_values(|p: Seq<char>| trim(p)) =~= seq![
                    trim(v@.subrange(i as int, k as int)),
                ] + pieces(v@.skip(k + 1), ',').map_values(|p: Seq<char>| trim(p)));
                assert(strings_view(r@) + pieces(v@.skip(k + 1), ',').map_values(
                    |p: Seq<char>| trim(p),
                ) =~= all);
                i = k + 1;
            },
            None => {
                let (a, b) = trim_bounds(&v, i, v.len());
                let ghost before = strings_view(r@);
                r.push(string_of(&v, a, b));
                assert(rest =~= v@.subrange(i as int, v.len() as int));
                assert(pieces(rest, ',') == seq![rest]);
                assert(strings_view(r@) =~= before.push(trim(rest)));
                assert(pieces(rest, ',').map_values(|p: Seq<char>| trim(p)) =~= seq![trim(rest)]);
                assert(strings_view(r@) =~= all);
                return r;
            },
        }
    }
}

/// An issue reference `project/number` split at its first `/`.
pub fn split_issue_ref(reference: &str) -> (r: Option<(String, String)>)
    ensures
        match find(reference@, seq!['/']) {
            Some(k) => r matches Some((p, n)) && p@ == reference@.take(k) && n@ == reference@.skip(
                k + 1,
            ),
            None => r is None,
        },
{
    let v = chars_of(reference);
    let slash: Vec<char> = vec!['/'];
    assert(slash@ =~= seq!['/']);
    match find_at_or_after(&v, &slash, 0) {
        None => None,
        Some(k) => {
            proof {
                lemma_find_from(v@, slash@, 0);
                assert(matches_at(v@, slash@, k as int));
            }
            assert(k < v.len());
            let p = string_of(&v, 0, k);
            let n = string_of(&v, k + 1, v.len());
            assert(v@.subrange(0, k as int) =~= v@.take(k as int));
            assert(v@.subrange(k + 1, v.len() as int) =~= v@.skip(k + 1));
            Some((p, n))
        },
    }
}

} // verus!
