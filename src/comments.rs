//! The comment-log codec: an ordered list of comments kept in a body under a
//! `## Comments` heading, one `### [<timestamp>] - <author>` entry each.

use vstd::prelude::*;
use crate::frontmatter::{body_text, closing, delimiter, header_text, is_framed, split_frontmatter};
use crate::text::{
    chars_of, contains, find, find_at_or_after, find_from, lemma_find_from, lemma_find_from_skip,
    matches_at, occurs_at, push_char, push_chars, starts_with, string_of, sub_vec, trim,
    trim_bounds, trim_end, trim_end_bound,
};

verus! {

/// A comment on a project, milestone or issue.
#[derive(Clone, Debug, PartialEq)]
pub struct Comment {
    pub id: String,
    pub author: String,
    pub timestamp: String,
    pub content: String,
}

/// What the text of a comment log keeps of a comment: everything but its id.
pub struct CommentRecord {
    pub author: Seq<char>,
    pub timestamp: Seq<char>,
    pub content: Seq<char>,
}

impl Comment {
    pub open spec fn record(&self) -> CommentRecord {
        CommentRecord { author: self.author@, timestamp: self.timestamp@, content: self.content@ }
    }
}

pub open spec fn records(cs: Seq<Comment>) -> Seq<CommentRecord> {
    cs.map_values(|c: Comment| c.record())
}

/// `\n## Comments\n`: the heading where it follows other text.
pub open spec fn heading_marker() -> Seq<char> {
    seq!['\n', '#', '#', ' ', 'C', 'o', 'm', 'm', 'e', 'n', 't', 's', '\n']
}

/// `## Comments\n`: the heading where it opens the body.
pub open spec fn heading_at_start() -> Seq<char> {
    heading_marker().drop_first()
}

/// `### [`: how an entry line starts.
pub open spec fn entry_marker() -> Seq<char> {
    seq!['#', '#', '#', ' ', '[']
}

/// `## `: how a heading that ends the comment log starts.
pub open spec fn section_marker() -> Seq<char> {
    seq!['#', '#', ' ']
}

/// ` - `: what separates the bracketed timestamp from the author.
pub open spec fn author_separator() -> Seq<char> {
    seq![' ', '-', ' ']
}

pub open spec fn unknown_author() -> Seq<char> {
    seq!['U', 'n', 'k', 'n', 'o', 'w', 'n']
}

pub open spec fn newline() -> Seq<char> {
    seq!['\n']
}

/// The text after the comments heading, if the body has one.
pub open spec fn section_of(body: Seq<char>) -> Option<Seq<char>> {
    match find(body, heading_marker()) {
        Some(p) => Some(body.skip(p + 13)),
        None => if starts_with(body, heading_at_start()) {
            Some(body.skip(12))
        } else {
            None
        },
    }
}

pub open spec fn strip_cr(l: Seq<char>) -> Seq<char> {
    if l.len() > 0 && l.last() == '\r' {
        l.drop_last()
    } else {
        l
    }
}

/// The lines of `s` as `str::lines` gives them: split at `\n`, a `\r` before
/// the `\n` dropped, no empty line after a final `\n`.
pub open spec fn lines_of(s: Seq<char>) -> Seq<Seq<char>>
    decreases s.len(),
{
    if s.len() == 0 {
        seq![]
    } else if find(s, newline()) is Some && 0 <= find(s, newline())->0 < s.len() {
        let j = find(s, newline())->0;
        seq![strip_cr(s.take(j))] + lines_of(s.skip(j + 1))
    } else {
        seq![s]
    }
}

/// The author named after the closing bracket of an entry line.
pub open spec fn author_of(rest: Seq<char>) -> Seq<char> {
    match find(rest, author_separator()) {
        Some(d) => trim(rest.skip(d + 3)),
        None => unknown_author(),
    }
}

/// The timestamp and author of an entry line, if it has a closing bracket.
pub open spec fn entry_header(l: Seq<char>) -> Option<(Seq<char>, Seq<char>)> {
    match find(l, seq![']']) {
        Some(cb) => Some((l.subrange(5, cb), author_of(l.skip(cb + 1)))),
        None => None,
    }
}

/// The content lines met so far, joined with `\n`; `None` before the first.
pub open spec fn add_line(acc: Option<Seq<char>>, l: Seq<char>) -> Option<Seq<char>> {
    match acc {
        Some(p) => Some(p + newline() + l),
        None => Some(l),
    }
}

pub open spec fn finish(cur: Option<(Seq<char>, Seq<char>)>, acc: Option<Seq<char>>) -> Seq<
    CommentRecord,
> {
    match cur {
        Some((ts, author)) => seq![
            CommentRecord {
                author: author,
                timestamp: ts,
                content: trim(
                    match acc {
                        Some(p) => p,
                        None => seq![],
                    },
                ),
            },
        ],
        None => seq![],
    }
}

/// The comments read from the remaining lines, given the entry being read
/// (its timestamp and author) and its content so far.
pub open spec fn scan(
    lines: Seq<Seq<char>>,
    cur: Option<(Seq<char>, Seq<char>)>,
    acc: Option<Seq<char>>,
) -> Seq<CommentRecord>
    decreases lines.len(),
{
    if lines.len() == 0 {
        finish(cur, acc)
    } else {
        let l = lines[0];
        if starts_with(l, entry_marker()) {
            finish(cur, acc) + scan(lines.drop_first(), entry_header(l), None)
        } else if starts_with(l, section_marker()) {
            finish(cur, acc)
        } else if cur is Some {
            scan(lines.drop_first(), cur, add_line(acc, l))
        } else {
            scan(lines.drop_first(), cur, acc)
        }
    }
}

/// The comments that a body holds.
pub open spec fn decode_comments(body: Seq<char>) -> Seq<CommentRecord> {
    match section_of(body) {
        Some(sec) => scan(lines_of(sec), None, None),
        None => seq![],
    }
}

/// Where the text kept before the comment section ends (after the newline
/// that ends the line before the heading), and where the text after the
/// heading starts.
pub open spec fn heading_span(body: Seq<char>) -> Option<(int, int)> {
    match find(body, heading_marker()) {
        Some(p) => Some((p + 1, p + 13)),
        None => if starts_with(body, heading_at_start()) {
            Some((0, 12))
        } else {
            None
        },
    }
}

/// `\n## `: a newline, then a line that starts a later section.
pub open spec fn later_heading() -> Seq<char> {
    seq!['\n', '#', '#', ' ']
}

/// Where the comment section ends, within the text after its heading: the
/// start of its first line that begins with `## `, if there is one.
pub open spec fn section_end(sec: Seq<char>) -> Option<int> {
    if starts_with(sec, section_marker()) {
        Some(0)
    } else {
        match find(sec, later_heading()) {
            Some(q) => Some(q + 1),
            None => None,
        }
    }
}

/// The sections after a comment section: its text from the first line that
/// begins with `## ` on, or nothing.
pub open spec fn later_sections(sec: Seq<char>) -> Seq<char> {
    match section_end(sec) {
        Some(q) => sec.skip(q),
        None => seq![],
    }
}

/// The body with its comment section removed (the heading line and the lines
/// after it up to the next line that starts with `## `, or to the end) and
/// trailing whitespace trimmed; all other text is kept as it is.
pub open spec fn without_comments(body: Seq<char>) -> Seq<char> {
    match heading_span(body) {
        None => trim_end(body),
        Some((k, s)) => trim_end(body.take(k) + later_sections(body.skip(s))),
    }
}

pub open spec fn entry_text(c: CommentRecord) -> Seq<char> {
    seq!['\n', '#', '#', '#', ' ', '['] + c.timestamp + seq![']', ' ', '-', ' '] + c.author
        + newline() + c.content + newline()
}

pub open spec fn entries_text(cs: Seq<CommentRecord>) -> Seq<char>
    decreases cs.len(),
{
    if cs.len() == 0 {
        seq![]
    } else {
        entry_text(cs[0]) + entries_text(cs.drop_first())
    }
}

/// The body with its comment section replaced by one that holds `cs`.
pub open spec fn encode_comments(body: Seq<char>, cs: Seq<CommentRecord>) -> Seq<char> {
    if cs.len() == 0 {
        without_comments(body)
    } else {
        without_comments(body) + seq!['\n'] + heading_marker() + entries_text(cs)
    }
}

fn heading_marker_chars() -> (r: Vec<char>)
    ensures
        r@ == heading_marker(),
{
    let r: Vec<char> = vec!['\n', '#', '#', ' ', 'C', 'o', 'm', 'm', 'e', 'n', 't', 's', '\n'];
    assert(r@ =~= heading_marker());
    r
}

fn heading_at_start_chars() -> (r: Vec<char>)
    ensures
        r@ == heading_at_start(),
{
    let r: Vec<char> = vec!['#', '#', ' ', 'C', 'o', 'm', 'm', 'e', 'n', 't', 's', '\n'];
    assert(r@ =~= heading_at_start());
    r
}

/// Where the section after a comments heading ends: the start of the first
/// line from `s` on that begins with `## `.
fn section_end_at(v: &Vec<char>, s: usize) -> (r: Option<usize>)
    requires
        s <= v.len(),
    ensures
        match section_end(v@.skip(s as int)) {
            Some(q) => r matches Some(k) && k == s + q,
            None => r is None,
        },
        r matches Some(k) ==> s <= k <= v.len(),
{
    let m: Vec<char> = vec!['#', '#', ' '];
    assert(m@ =~= section_marker());
    let ghost sec = v@.skip(s as int);
    let opens = occurs_at(v, &m, s);
    assert(opens == starts_with(sec, section_marker())) by {
        if sec.len() >= 3 {
            assert(sec.take(3) =~= v@.subrange(s as int, s + 3));
        }
    }
    if opens {
        return Some(s);
    }
    let lh: Vec<char> = vec!['\n', '#', '#', ' '];
    assert(lh@ =~= later_heading());
    proof {
        lemma_find_from_skip(v@, lh@, s as int, 0);
        lemma_find_from(v@, lh@, s as int);
    }
    match find_at_or_after(v, &lh, s) {
        Some(k) => {
            assert(matches_at(v@, lh@, k as int));
            Some(k + 1)
        },
        None => None,
    }
}

/// The text that `without_comments` keeps.
fn kept_text(v: &Vec<char>) -> (r: Vec<char>)
    ensures
        r@ == without_comments(v@),
{
    let head = heading_marker_chars();
    let span: Option<(usize, usize)> = match find_at_or_after(v, &head, 0) {
        Some(p) => {
            proof {
                lemma_find_from(v@, head@, 0);
                assert(matches_at(v@, head@, p as int));
            }
            assert(p + 13 <= v.len());
            assert(heading_span(v@) == Some((p + 1, p + 13)));
            Some((p + 1, p + 13))
        },
        None => {
            assert(find(v@, heading_marker()) is None);
            let start = heading_at_start_chars();
            let opens = occurs_at(v, &start, 0);
            assert(opens == starts_with(v@, heading_at_start())) by {
                if v.len() >= 12 {
                    assert(v@.take(12) =~= v@.subrange(0, 12));
                }
            }
            if opens {
                assert(heading_span(v@) == Some((0int, 12int)));
                Some((0, 12))
            } else {
                assert(heading_span(v@) is None);
                None
            }
        },
    };
    assert(match span {
        Some((k, s)) => heading_span(v@) == Some((k as int, s as int)) && k <= s <= v.len(),
        None => heading_span(v@) is None,
    });
    match span {
        None => {
            let e = trim_end_bound(v, 0, v.len());
            assert(v@.subrange(0, v.len() as int) =~= v@);
            assert(without_comments(v@) == trim_end(v@));
            let r = sub_vec(v, 0, e);
            assert(r@ == trim_end(v@));
            r
        },
        Some((k, s)) => {
            let mut joined = sub_vec(v, 0, k);
            assert(joined@ =~= v@.take(k as int));
            let start = match section_end_at(v, s) {
                Some(q) => q,
                None => v.len(),
            };
            assert(v@.subrange(start as int, v.len() as int) =~= later_sections(v@.skip(s as int)));
            let mut i = start;
            while i < v.len()
                invariant
                    start <= i <= v.len(),
                    joined@ == v@.take(k as int) + v@.subrange(start as int, i as int),
                decreases v.len() - i,
            {
                joined.push(v[i]);
                assert(v@.subrange(start as int, i + 1) =~= v@.subrange(start as int, i as int).push(
                    v@[i as int],
                ));
                i = i + 1;
            }
            assert(joined@ == v@.take(k as int) + later_sections(v@.skip(s as int)));
            assert(without_comments(v@) == trim_end(joined@));
            let e = trim_end_bound(&joined, 0, joined.len());
            assert(joined@.subrange(0, joined.len() as int) =~= joined@);
            sub_vec(&joined, 0, e)
        },
    }
}

/// Removes the comment section of `body`, keeping the text before it and the
/// sections after it, and appends one that lists `comments` in order; with no
/// comments, no section is written.
pub fn write_comments(body: &str, comments: &[Comment]) -> (r: String)
    ensures
        r@ == encode_comments(body@, records(comments@)),
{
    let v = chars_of(body);
    let kept = kept_text(&v);
    let mut r = string_of(&kept, 0, kept.len());
    assert(kept@.subrange(0, kept.len() as int) =~= kept@);
    if comments.len() == 0 {
        return r;
    }
    let ghost recs = records(comments@);
    push_char(&mut r, '\n');
    let head = heading_marker_chars();
    push_chars(&mut r, &head);
    let ghost prefix = r@;
    assert(recs.skip(0) =~= recs);
    let open: Vec<char> = vec!['\n', '#', '#', '#', ' ', '['];
    let close: Vec<char> = vec![']', ' ', '-', ' '];
    let mut k: usize = 0;
    while k < comments.len()
        invariant
            k <= comments.len(),
            recs == records(comments@),
            open@ == seq!['\n', '#', '#', '#', ' ', '['],
            close@ == seq![']', ' ', '-', ' '],
            r@ + entries_text(recs.skip(k as int)) == prefix + entries_text(recs),
        decreases comments.len() - k,
    {
        let c = &comments[k];
        let ghost before = r@;
        push_chars(&mut r, &open);
        r.append(c.timestamp.as_str());
        push_chars(&mut r, &close);
        r.append(c.author.as_str());
        push_char(&mut r, '\n');
        r.append(c.content.as_str());
        push_char(&mut r, '\n');
        proof {
            assert(recs.skip(k as int).drop_first() =~= recs.skip(k + 1));
            assert(recs.skip(k as int)[0] == c.record());
            assert(r@ =~= before + entry_text(c.record()));
        }
        k = k + 1;
    }
    assert(recs.skip(comments.len() as int) =~= Seq::<CommentRecord>::empty());
    assert(r@ =~= encode_comments(body@, recs));
    r
}

/// Relies on `uuid::Uuid::new_v4` and its `Display`, which writes the UUID in
/// hyphenated form: a fresh random identifier of 36 characters.
#[verifier::external_body]
fn fresh_id() -> (r: String)
    ensures
        r@.len() == 36,
{
    uuid::Uuid::new_v4().to_string()
}

pub open spec fn header_view(h: Option<(String, String)>) -> Option<(Seq<char>, Seq<char>)> {
    match h {
        Some((ts, author)) => Some((ts@, author@)),
        None => None,
    }
}

pub open spec fn content_view(acc: Seq<char>, has_lines: bool) -> Option<Seq<char>> {
    if has_lines {
        Some(acc)
    } else {
        None
    }
}

/// The timestamp and author of an entry line, if it has a closing bracket.
fn parse_entry_header(line: &Vec<char>) -> (r: Option<(String, String)>)
    requires
        starts_with(line@, entry_marker()),
    ensures
        header_view(r) == entry_header(line@),
{
    let bracket: Vec<char> = vec![']'];
    assert(bracket@ =~= seq![']']);
    match find_at_or_after(line, &bracket, 0) {
        None => None,
        Some(cb) => {
            proof {
                lemma_find_from(line@, bracket@, 0);
                assert(matches_at(line@, bracket@, cb as int));
                assert(cb + 1 <= line@.len());
                assert(line@.subrange(cb as int, cb + 1)[0] == line@[cb as int]);
                if cb < 5 {
                    assert(line@.take(5)[cb as int] == line@[cb as int]);
                }
            }
            assert(cb < line.len());
            let ts = string_of(line, 5, cb);
            let rest = sub_vec(line, cb + 1, line.len());
            assert(rest@ =~= line@.skip(cb + 1));
            let sep: Vec<char> = vec![' ', '-', ' '];
            assert(sep@ =~= author_separator());
            let author = match find_at_or_after(&rest, &sep, 0) {
                Some(d) => {
                    proof {
                        lemma_find_from(rest@, sep@, 0);
                    }
                    let (x, y) = trim_bounds(&rest, d + 3, rest.len());
                    assert(rest@.subrange(d + 3, rest.len() as int) =~= rest@.skip(d + 3));
                    string_of(&rest, x, y)
                },
                None => {
                    let unknown: Vec<char> = vec!['U', 'n', 'k', 'n', 'o', 'w', 'n'];
                    assert(unknown@ =~= unknown_author());
                    string_of(&unknown, 0, 7)
                },
            };
            assert(unknown_author().subrange(0, 7) =~= unknown_author());
            Some((ts, author))
        },
    }
}

/// Appends the entry being read, if any, with its content trimmed.
fn finish_entry(
    out: &mut Vec<Comment>,
    cur: Option<(String, String)>,
    acc: &Vec<char>,
    has_lines: bool,
)
    requires
        !has_lines ==> acc@.len() == 0,
        forall|i: int| 0 <= i < old(out).len() ==> (#[trigger] old(out)@[i]).id@.len() == 36,
    ensures
        forall|i: int| 0 <= i < final(out).len() ==> (#[trigger] final(out)@[i]).id@.len() == 36,
        records(final(out)@) == records(old(out)@) + finish(
            header_view(cur),
            content_view(acc@, has_lines),
        ),
{
    match cur {
        None => {
            assert(records(out@) + seq![] =~= records(out@));
        },
        Some((ts, author)) => {
            let (x, y) = trim_bounds(acc, 0, acc.len());
            assert(acc@.subrange(0, acc.len() as int) =~= acc@);
            if !has_lines {
                assert(acc@ =~= Seq::<char>::empty());
            }
            let content = string_of(acc, x, y);
            let c = Comment { id: fresh_id(), author, timestamp: ts, content };
            let ghost before = out@;
            out.push(c);
            assert(records(out@) =~= records(before) + finish(
                header_view(cur),
                content_view(acc@, has_lines),
            ));
        },
    }
}

/// The lines of a suffix: the first line, then the lines after its newline.
proof fn lemma_lines_step(s: Seq<char>, i: int)
    requires
        0 <= i < s.len(),
    ensures
        find_from(s, newline(), i) matches Some(j) ==> i <= j < s.len() && s[j] == '\n' && lines_of(
            s.skip(i),
        ) == seq![strip_cr(s.subrange(i, j))] + lines_of(s.skip(j + 1)),
        find_from(s, newline(), i) is None ==> lines_of(s.skip(i)) == seq![s.skip(i)],
{
    let t = s.skip(i);
    lemma_find_from_skip(s, newline(), i, 0);
    lemma_find_from(s, newline(), i);
    match find_from(s, newline(), i) {
        Some(j) => {
            assert(s.subrange(j, j + 1)[0] == s[j]);
            assert(t.take(j - i) =~= s.subrange(i, j));
            assert(t.skip(j - i + 1) =~= s.skip(j + 1));
        },
        None => {},
    }
}

/// The comments held in the comment section of `body`, in order, each with a
/// fresh id (ids are not kept in the text).
pub fn read_comments(body: &str) -> (r: Vec<Comment>)
    ensures
        records(r@) == decode_comments(body@),
        forall|i: int| 0 <= i < r.len() ==> (#[trigger] r@[i]).id@.len() == 36,
{
    let v = chars_of(body);
    let head = heading_marker_chars();
    let start: usize = match find_at_or_after(&v, &head, 0) {
        Some(p) => {
            proof {
                lemma_find_from(v@, head@, 0);
                assert(matches_at(v@, head@, p as int));
            }
            assert(p + 13 <= v.len());
            p + 13
        },
        None => {
            let at_start = heading_at_start_chars();
            let opens = occurs_at(&v, &at_start, 0);
            assert(opens == starts_with(v@, heading_at_start())) by {
                if v.len() >= 12 {
                    assert(v@.take(12) =~= v@.subrange(0, 12));
                }
            }
            if !opens {
                assert(records(Seq::<Comment>::empty()) =~= Seq::<CommentRecord>::empty());
                return Vec::new();
            }
            12
        },
    };
    let sec = sub_vec(&v, start, v.len());
    assert(sec@ =~= section_of(body@)->0);
    let ghost total = scan(lines_of(sec@), None, None);
    let newline_char: Vec<char> = vec!['\n'];
    assert(newline_char@ =~= newline());
    let entry: Vec<char> = vec!['#', '#', '#', ' ', '['];
    assert(entry@ =~= entry_marker());
    let section: Vec<char> = vec!['#', '#', ' '];
    assert(section@ =~= section_marker());
    let mut out: Vec<Comment> = Vec::new();
    let mut cur: Option<(String, String)> = None;
    let mut acc: Vec<char> = Vec::new();
    let mut has_lines = false;
    let mut i: usize = 0;
    assert(sec@.skip(0) =~= sec@);
    assert(records(out@) =~= Seq::<CommentRecord>::empty());
    while i < sec.len()
        invariant
            i <= sec.len(),
            newline_char@ == newline(),
            entry@ == entry_marker(),
            section@ == section_marker(),
            !has_lines ==> acc@.len() == 0,
            forall|k: int| 0 <= k < out.len() ==> (#[trigger] out@[k]).id@.len() == 36,
            records(out@) + scan(
                lines_of(sec@.skip(i as int)),
                header_view(cur),
                content_view(acc@, has_lines),
            ) == total,
        decreases sec.len() - i,
    {
        proof {
            lemma_lines_step(sec@, i as int);
        }
        let (line_end, next) = match find_at_or_after(&sec, &newline_char, i) {
            Some(j) => {
                if j > i && sec[j - 1] == '\r' {
                    (j - 1, j + 1)
                } else {
                    (j, j + 1)
                }
            },
            None => (sec.len(), sec.len()),
        };
        let line = sub_vec(&sec, i, line_end);
        let ghost rest_lines = lines_of(sec@.skip(next as int));
        proof {
            match find_from(sec@, newline(), i as int) {
                Some(j) => {
                    assert(line@ == strip_cr(sec@.subrange(i as int, j)));
                },
                None => {
                    assert(line@ =~= sec@.skip(i as int));
                    assert(sec@.skip(next as int) =~= Seq::<char>::empty());
                    assert(rest_lines =~= Seq::<Seq<char>>::empty());
                },
            }
            assert(lines_of(sec@.skip(i as int)) =~= seq![line@] + rest_lines);
            assert((seq![line@] + rest_lines).drop_first() =~= rest_lines);
        }
        let is_entry = line.len() >= 5 && occurs_at(&line, &entry, 0);
        assert(is_entry == starts_with(line@, entry_marker())) by {
            if line.len() >= 5 {
                assert(line@.take(5) =~= line@.subrange(0, 5));
            }
        }
        let is_section = line.len() >= 3 && occurs_at(&line, &section, 0);
        assert(is_section == starts_with(line@, section_marker())) by {
            if line.len() >= 3 {
                assert(line@.take(3) =~= line@.subrange(0, 3));
            }
        }
        let ghost before = records(out@);
        let ghost old_cur = header_view(cur);
        let ghost old_acc = content_view(acc@, has_lines);
        assert(before + scan(seq![line@] + rest_lines, old_cur, old_acc) == total);
        if is_entry {
            finish_entry(&mut out, cur, &acc, has_lines);
            cur = parse_entry_header(&line);
            acc = Vec::new();
            has_lines = false;
            assert(records(out@) + scan(rest_lines, header_view(cur), content_view(acc@, has_lines))
                =~= before + scan(seq![line@] + rest_lines, old_cur, old_acc));
            i = next;
        } else if is_section {
            finish_entry(&mut out, cur, &acc, has_lines);
            cur = None;
            acc = Vec::new();
            has_lines = false;
            assert(sec@.skip(sec.len() as int) =~= Seq::<char>::empty());
            assert(records(out@) + scan(
                lines_of(sec@.skip(sec.len() as int)),
                header_view(cur),
                content_view(acc@, has_lines),
            ) =~= before + scan(seq![line@] + rest_lines, old_cur, old_acc));
            i = sec.len();
        } else {
            if cur.is_some() {
                let ghost acc0 = acc@;
                if has_lines {
                    acc.push('\n');
                }
                let ghost acc1 = acc@;
                let mut k: usize = 0;
                while k < line.len()
                    invariant
                        k <= line.len(),
                        acc@ == acc1 + line@.take(k as int),
                    decreases line.len() - k,
                {
                    acc.push(line[k]);
                    assert(line@.take(k + 1) =~= line@.take(k as int).push(line@[k as int]));
                    k = k + 1;
                }
                assert(line@.take(line.len() as int) =~= line@);
                has_lines = true;
                assert(content_view(acc@, has_lines) =~= add_line(old_acc, line@));
            }
            i = next;
        }
    }
    finish_entry(&mut out, cur, &acc, has_lines);
    out
}

/// Relies on `chrono::Utc::now` and `DateTime::to_rfc3339`: the current UTC
/// time as an RFC 3339 stamp. Which time it is is the clock's; every such stamp
/// is written with digits, `-`, `:`, `T`, `.` and `+` alone, so it is not empty
/// and holds no `]` and no line break.
#[verifier::external_body]
fn now_rfc3339() -> (r: String)
    ensures
        r@.len() > 0,
        !contains(r@, seq![']']),
        !contains(r@, newline()),
{
    chrono::Utc::now().to_rfc3339()
}

impl Comment {
    /// A new comment by `author`, stamped with the current time and a fresh id.
    /// The stamp can stand in an entry line: it is not empty and holds no `]`
    /// and no line break.
    pub fn new(author: String, content: String) -> (r: Comment)
        ensures
            r.author == author,
            r.content == content,
            r.id@.len() == 36,
            r.timestamp@.len() > 0,
            !contains(r.timestamp@, seq![']']),
            !contains(r.timestamp@, newline()),
    {
        let id = fresh_id();
        let timestamp = now_rfc3339();
        Comment { id, author, timestamp, content }
    }
}

/// A stored document split for a comment to be added, as the front-matter
/// codec splits it: the header part (the opening `---`, the header block and
/// the closing `---`) and the trimmed body.
pub open spec fn document_parts(doc: Seq<char>) -> Option<(Seq<char>, Seq<char>)> {
    if is_framed(doc) {
        Some((delimiter() + header_text(doc) + closing(), body_text(doc)))
    } else {
        None
    }
}

/// The document with `c` added after the comments it already holds.
pub open spec fn with_comment_added(doc: Seq<char>, c: CommentRecord) -> Option<Seq<char>> {
    match document_parts(doc) {
        Some((front, body)) => Some(
            front + seq!['\n', '\n'] + encode_comments(body, decode_comments(body).push(c)),
        ),
        None => None,
    }
}

/// Splits a stored document into its header part and its trimmed body, as
/// `split_frontmatter` does. `None` where it is not framed by `---` lines.
pub fn split_for_comments(doc: &str) -> (r: Option<(String, String)>)
    ensures
        match document_parts(doc@) {
            Some((front, body)) => r matches Some((f, b)) && f@ == front && b@ == body,
            None => r is None,
        },
{
    match split_frontmatter(doc) {
        Err(_) => None,
        Ok((header, body)) => {
            let mut front = String::new();
            let open: Vec<char> = vec!['-', '-', '-'];
            let close: Vec<char> = vec!['\n', '-', '-', '-'];
            push_chars(&mut front, &open);
            front.append(header.as_str());
            push_chars(&mut front, &close);
            assert(front@ =~= delimiter() + header_text(doc@) + closing());
            Some((front, body))
        },
    }
}

/// Adds a comment to a stored document: reads the comments of its body,
/// appends `comment`, and writes the comment section anew. `None` where the
/// document is not framed by `---` lines.
pub fn append_comment(doc: &str, comment: Comment) -> (r: Option<String>)
    ensures
        match with_comment_added(doc@, comment.record()) {
            Some(d) => r matches Some(t) && t@ == d,
            None => r is None,
        },
{
    let (front, body) = match split_for_comments(doc) {
        Some(parts) => parts,
        None => return None,
    };
    let mut r = front;
    let mut comments = read_comments(body.as_str());
    let ghost before = comments@;
    let ghost rec = comment.record();
    comments.push(comment);
    assert(records(comments@) =~= records(before).push(rec));
    let updated = write_comments(body.as_str(), comments.as_slice());
    push_char(&mut r, '\n');
    push_char(&mut r, '\n');
    r.append(updated.as_str());
    assert(r@ =~= with_comment_added(doc@, rec)->0);
    Some(r)
}

} // verus!
