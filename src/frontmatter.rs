//! The front-matter codec: a document is a `---` line, a YAML header block,
//! a closing `---` line and a free-text body.

use vstd::prelude::*;
use crate::text::{
    chars_of, find, find_at_or_after, is_ws, lemma_find_from, lemma_find_from_first,
    lemma_trim_idempotent, matches_at, occurs_at, starts_with, string_of, sub_vec, trim,
    trim_bounds, trim_end, trim_start, contains, push_char,
};

verus! {

/// `serde_yaml::Value`, carried through as an opaque YAML document.
#[verifier::external_type_specification]
#[verifier::external_body]
pub struct ExYamlValue(serde_yaml::Value);

/// `serde_yaml::Error`, carried through as the cause of a header that is not YAML.
#[verifier::external_type_specification]
#[verifier::external_body]
pub struct ExYamlError(serde_yaml::Error);

/// Why a document could not be split into header and body.
#[derive(Debug)]
pub enum FormatError {
    /// The trimmed text does not begin with `---`.
    MissingDelimiter,
    /// No newline followed by `---` comes after the opening delimiter to
    /// close the header block (a line that starts with `---` closes it).
    UnterminatedHeader,
    /// The header block is not valid YAML.
    HeaderDecode(serde_yaml::Error),
}

/// The three-hyphen delimiter line.
pub open spec fn delimiter() -> Seq<char> {
    seq!['-', '-', '-']
}

/// A newline followed by the delimiter: what closes the header block.
pub open spec fn closing() -> Seq<char> {
    seq!['\n', '-', '-', '-']
}

pub open spec fn opens_with_delimiter(raw: Seq<char>) -> bool {
    starts_with(trim(raw), delimiter())
}

/// What follows the opening delimiter of the trimmed document.
pub open spec fn after_opening(raw: Seq<char>) -> Seq<char> {
    trim(raw).skip(3)
}

pub open spec fn header_end(raw: Seq<char>) -> Option<int> {
    find(after_opening(raw), closing())
}

pub open spec fn is_framed(raw: Seq<char>) -> bool {
    opens_with_delimiter(raw) && header_end(raw) is Some
}

/// The header block: everything between the opening delimiter and the closing one.
pub open spec fn header_text(raw: Seq<char>) -> Seq<char> {
    after_opening(raw).take(header_end(raw)->0)
}

/// The body: everything after the closing delimiter, trimmed.
pub open spec fn body_text(raw: Seq<char>) -> Seq<char> {
    trim(after_opening(raw).skip(header_end(raw)->0 + 4))
}

/// The document text for a serialized header and a body.
pub open spec fn document_text(header: Seq<char>, body: Seq<char>) -> Seq<char> {
    seq!['-', '-', '-', '\n'] + header + seq!['-', '-', '-', '\n', '\n'] + trim(body)
}

/// Whether serde_yaml reads the text as a YAML value.
pub uninterp spec fn yaml_accepts(text: Seq<char>) -> bool;

/// Relies on `serde_yaml::from_str::<serde_yaml::Value>`: it fails exactly on
/// text that is not YAML, and the outcome depends on the text alone.
#[verifier::external_body]
fn parse_yaml(text: &str) -> (r: Result<serde_yaml::Value, serde_yaml::Error>)
    ensures
        r is Ok <==> yaml_accepts(text@),
{
    serde_yaml::from_str::<serde_yaml::Value>(text)
}

/// Splits a document into its header block text and its trimmed body.
pub fn split_frontmatter(raw: &str) -> (r: Result<(String, String), FormatError>)
    ensures
        r is Ok <==> is_framed(raw@),
        r matches Ok((h, b)) ==> h@ == header_text(raw@) && b@ == body_text(raw@),
        r matches Err(e) ==> (e is MissingDelimiter <==> !opens_with_delimiter(raw@)),
        r matches Err(e) ==> (e is UnterminatedHeader <==> opens_with_delimiter(raw@)
            && header_end(raw@) is None),
        r matches Err(e) ==> !(e is HeaderDecode),
{
    let v = chars_of(raw);
    let (a, b) = trim_bounds(&v, 0, v.len());
    assert(v@.subrange(0, v.len() as int) =~= raw@);
    let t = sub_vec(&v, a, b);
    let delim: Vec<char> = vec!['-', '-', '-'];
    assert(delim@ =~= delimiter());
    let opens = occurs_at(&t, &delim, 0);
    assert(opens == starts_with(t@, delimiter())) by {
        if t.len() >= 3 {
            assert(t@.take(3) =~= t@.subrange(0, 3));
        }
    }
    if !opens {
        return Err(FormatError::MissingDelimiter);
    }
    let rest = sub_vec(&t, 3, t.len());
    assert(rest@ =~= after_opening(raw@));
    let close: Vec<char> = vec!['\n', '-', '-', '-'];
    assert(close@ =~= closing());
    match find_at_or_after(&rest, &close, 0) {
        None => Err(FormatError::UnterminatedHeader),
        Some(e) => {
            proof {
                lemma_find_from(rest@, close@, 0);
            }
            let header = string_of(&rest, 0, e);
            assert(rest@.subrange(0, e as int) =~= rest@.take(e as int));
            let (x, y) = trim_bounds(&rest, e + 4, rest.len());
            assert(rest@.subrange(e + 4, rest.len() as int) =~= rest@.skip(e + 4));
            let body = string_of(&rest, x, y);
            Ok((header, body))
        },
    }
}

/// Splits a document and reads its header block as YAML.
pub fn decode_frontmatter(raw: &str) -> (r: Result<(serde_yaml::Value, String), FormatError>)
    ensures
        r is Ok <==> is_framed(raw@) && yaml_accepts(header_text(raw@)),
        r matches Ok((_, b)) ==> b@ == body_text(raw@),
        r matches Err(e) ==> (e is MissingDelimiter <==> !opens_with_delimiter(raw@)),
        r matches Err(e) ==> (e is UnterminatedHeader <==> opens_with_delimiter(raw@)
            && header_end(raw@) is None),
        r matches Err(e) ==> (e is HeaderDecode <==> is_framed(raw@) && !yaml_accepts(
            header_text(raw@),
        )),
{
    match split_frontmatter(raw) {
        Err(e) => Err(e),
        Ok((header, body)) => match parse_yaml(header.as_str()) {
            Ok(value) => Ok((value, body)),
            Err(e) => Err(FormatError::HeaderDecode(e)),
        },
    }
}

/// Frames a serialized header and a body as a document.
pub fn encode_frontmatter(header: &str, body: &str) -> (r: String)
    ensures
        r@ == document_text(header@, body@),
{
    let bv = chars_of(body);
    let (x, y) = trim_bounds(&bv, 0, bv.len());
    assert(bv@.subrange(0, bv.len() as int) =~= body@);
    let mut r = String::new();
    push_char(&mut r, '-');
    push_char(&mut r, '-');
    push_char(&mut r, '-');
    push_char(&mut r, '\n');
    r.append(header);
    push_char(&mut r, '-');
    push_char(&mut r, '-');
    push_char(&mut r, '-');
    push_char(&mut r, '\n');
    push_char(&mut r, '\n');
    let b = string_of(&bv, x, y);
    r.append(b.as_str());
    assert(r@ =~= document_text(header@, body@));
    r
}

/// Decoding a framed document gives back the header block and the trimmed body:
/// for a serialized header that ends with a newline and has no line starting
/// with `---`, the header block read back is that text with its last newline
/// moved to the front (the same YAML), and the body read back is the trimmed body.
pub proof fn lemma_frontmatter_round_trip(header: Seq<char>, body: Seq<char>)
    requires
        header.len() > 0,
        header.last() == '\n',
        !contains(seq!['\n'] + header.drop_last(), closing()),
    ensures
        is_framed(document_text(header, body)),
        header_text(document_text(header, body)) == seq!['\n'] + header.drop_last(),
        body_text(document_text(header, body)) == trim(body),
{
    let doc = document_text(header, body);
    let tb = trim(body);
    lemma_trim_idempotent(body);
    let tail = if tb.len() > 0 {
        seq!['\n', '\n'] + tb
    } else {
        Seq::<char>::empty()
    };
    let t = seq!['-', '-', '-', '\n'] + header + seq!['-', '-', '-'] + tail;
    assert(trim_start(doc) == doc);
    if tb.len() > 0 {
        assert(doc =~= t);
        assert(doc.last() == tb.last());
        assert(trim_end(doc) == doc);
    } else {
        assert(doc.drop_last().drop_last() =~= t);
        assert(trim_end(doc) == trim_end(doc.drop_last()));
        assert(trim_end(doc.drop_last()) == trim_end(t));
        assert(t.last() == '-');
        assert(trim_end(t) == t);
    }
    assert(trim(doc) == t);
    assert(starts_with(t, delimiter())) by {
        assert(t.take(3) =~= delimiter());
    }
    let rest = t.skip(3);
    let p = seq!['\n'] + header.drop_last();
    let k = p.len() as int;
    assert(rest =~= p + closing() + tail);
    assert(matches_at(rest, closing(), k)) by {
        assert(rest.subrange(k, k + 4) =~= closing());
    }
    assert forall|j: int| 0 <= j < k implies !matches_at(rest, closing(), j) by {
        if j + 4 <= k {
            assert(rest.subrange(j, j + 4) =~= p.subrange(j, j + 4));
            if matches_at(rest, closing(), j) {
                assert(matches_at(p, closing(), j));
            }
        } else {
            assert(rest[k] == '\n');
            assert(rest.subrange(j, j + 4)[k - j] == rest[k]);
            assert(closing()[k - j] == '-');
        }
    }
    lemma_find_from_first(rest, closing(), 0, k);
    assert(rest.take(k) =~= p);
    let after = rest.skip(k + 4);
    assert(after =~= tail);
    if tb.len() > 0 {
        assert(after.drop_first().drop_first() =~= tb);
        assert(is_ws(after[0]));
        assert(trim_start(after) == trim_start(after.drop_first()));
        assert(is_ws(after.drop_first()[0]));
        assert(trim_start(after.drop_first()) == trim_start(tb));
    } else {
        assert(trim(after) =~= tb);
    }
}

} // verus!
