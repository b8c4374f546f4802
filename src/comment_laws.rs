//! What holds of the comment-log codec across calls: encoding then decoding
//! gives the comments back, and later sections are never read.

use vstd::prelude::*;
use crate::text::{
    contains, find, is_ws, lemma_find_from, lemma_find_from_first, matches_at, starts_with,
    trim, trim_end, trim_start, ends_with, lemma_trim_end_shape, lemma_trim_idempotent,
};
use crate::comments::{
    CommentRecord, add_line, author_separator, decode_comments, encode_comments, entries_text,
    entry_header, entry_marker, entry_text, finish, heading_at_start, heading_marker, lines_of,
    newline, scan, section_marker, strip_cr, without_comments, author_of, later_heading,
    later_sections, section_end, heading_span,
};

verus! {

/// The lines of `a + b` where `a` ends with a newline.
pub proof fn lemma_lines_concat(a: Seq<char>, b: Seq<char>)
    requires
        a.len() > 0,
        a.last() == '\n',
    ensures
        lines_of(a + b) == lines_of(a) + lines_of(b),
    decreases a.len(),
{
    let n = newline();
    let last = a.len() - 1;
    assert(matches_at(a, n, last)) by {
        assert(a.subrange(last, last + 1) =~= n);
    }
    lemma_find_from(a, n, 0);
    let j = find(a, n)->0;
    assert(a.subrange(j, j + 1)[0] == a[j]);
    let ab = a + b;
    assert(matches_at(ab, n, j)) by {
        assert(ab.subrange(j, j + 1) =~= a.subrange(j, j + 1));
    }
    assert forall|i: int| 0 <= i < j implies !matches_at(ab, n, i) by {
        assert(!matches_at(a, n, i));
        assert(ab.subrange(i, i + 1) =~= a.subrange(i, i + 1));
    }
    lemma_find_from_first(ab, n, 0, j);
    assert(ab.take(j) =~= a.take(j));
    assert(ab.skip(j + 1) =~= a.skip(j + 1) + b);
    if j + 1 == a.len() {
        assert(a.skip(j + 1) =~= Seq::<char>::empty());
        assert(a.skip(j + 1) + b =~= b);
        assert(lines_of(a.skip(j + 1)) =~= Seq::<Seq<char>>::empty());
        assert(lines_of(a) =~= seq![strip_cr(a.take(j))]);
    } else {
        assert(a.skip(j + 1).last() == a.last());
        lemma_lines_concat(a.skip(j + 1), b);
    }
    assert(lines_of(ab) =~= lines_of(a) + lines_of(b));
}

/// A text without a newline, followed by one, is a single line.
pub proof fn lemma_lines_single(x: Seq<char>)
    requires
        !contains(x, newline()),
    ensures
        lines_of(x + newline()) == seq![strip_cr(x)],
{
    let s = x + newline();
    let k = x.len() as int;
    assert(matches_at(s, newline(), k)) by {
        assert(s.subrange(k, k + 1) =~= newline());
    }
    assert forall|i: int| 0 <= i < k implies !matches_at(s, newline(), i) by {
        assert(s.subrange(i, i + 1) =~= x.subrange(i, i + 1));
        if matches_at(s, newline(), i) {
            assert(matches_at(x, newline(), i));
        }
    }
    lemma_find_from_first(s, newline(), 0, k);
    assert(s.take(k) =~= x);
    assert(s.skip(k + 1) =~= Seq::<char>::empty());
    assert(lines_of(s.skip(k + 1)) =~= Seq::<Seq<char>>::empty());
    assert(lines_of(s) =~= seq![strip_cr(x)]);
}

/// The content so far after each of `lines` is added in turn.
pub open spec fn extend(acc: Option<Seq<char>>, lines: Seq<Seq<char>>) -> Option<Seq<char>>
    decreases lines.len(),
{
    if lines.len() == 0 {
        acc
    } else {
        extend(add_line(acc, lines[0]), lines.drop_first())
    }
}

pub open spec fn is_plain_line(l: Seq<char>) -> bool {
    !starts_with(l, entry_marker()) && !starts_with(l, section_marker())
}

/// Lines that start neither an entry nor a heading are content of the entry being read.
pub proof fn lemma_scan_plain(
    m: Seq<Seq<char>>,
    rest: Seq<Seq<char>>,
    h: (Seq<char>, Seq<char>),
    acc: Option<Seq<char>>,
)
    requires
        forall|i: int| 0 <= i < m.len() ==> is_plain_line(#[trigger] m[i]),
    ensures
        scan(m + rest, Some(h), acc) == scan(rest, Some(h), extend(acc, m)),
    decreases m.len(),
{
    if m.len() == 0 {
        assert(m + rest =~= rest);
    } else {
        assert(is_plain_line(m[0]));
        assert((m + rest)[0] == m[0]);
        assert((m + rest).drop_first() =~= m.drop_first() + rest);
        lemma_scan_plain(m.drop_first(), rest, h, add_line(acc, m[0]));
    }
}

/// Adding the lines of a content text adds the content, less a final `\r`.
pub proof fn lemma_extend_content(acc: Option<Seq<char>>, c: Seq<char>)
    requires
        !contains(c, seq!['\r', '\n']),
    ensures
        extend(acc, lines_of(c + newline())) == add_line(acc, strip_cr(c)),
    decreases c.len(),
{
    let s = c + newline();
    let k = c.len() as int;
    assert(matches_at(s, newline(), k)) by {
        assert(s.subrange(k, k + 1) =~= newline());
    }
    lemma_find_from(s, newline(), 0);
    let j = find(s, newline())->0;
    assert(s.subrange(j, j + 1)[0] == s[j]);
    if j == k {
        assert forall|i: int| 0 <= i < k implies !matches_at(c, newline(), i) by {
            assert(!matches_at(s, newline(), i));
            assert(s.subrange(i, i + 1) =~= c.subrange(i, i + 1));
        }
        lemma_lines_single(c);
        let l = seq![strip_cr(c)];
        assert(extend(add_line(acc, l[0]), l.drop_first()) == add_line(acc, l[0]));
    } else {
        let x = c.take(j);
        let c2 = c.skip(j + 1);
        assert(s.take(j) =~= x);
        assert(s.skip(j + 1) =~= c2 + newline());
        assert(c[j] == '\n');
        if x.len() > 0 && x.last() == '\r' {
            assert(matches_at(c, seq!['\r', '\n'], j - 1)) by {
                assert(c.subrange(j - 1, j + 1) =~= seq!['\r', '\n']);
            }
        }
        assert(strip_cr(x) == x);
        assert forall|i: int| !matches_at(c2, seq!['\r', '\n'], i) by {
            if matches_at(c2, seq!['\r', '\n'], i) {
                assert(c.subrange(i + j + 1, i + j + 3) =~= c2.subrange(i, i + 2));
                assert(matches_at(c, seq!['\r', '\n'], i + j + 1));
            }
        }
        lemma_extend_content(add_line(acc, x), c2);
        assert(lines_of(s) == seq![x] + lines_of(c2 + newline()));
        assert((seq![x] + lines_of(c2 + newline()))[0] == x);
        assert((seq![x] + lines_of(c2 + newline())).drop_first() =~= lines_of(c2 + newline()));
        if c2.len() > 0 {
            assert(c.last() == c2.last());
            assert(strip_cr(c) =~= x + newline() + strip_cr(c2));
        } else {
            assert(c =~= x + newline());
            assert(strip_cr(c) =~= x + newline() + strip_cr(c2));
        }
        assert(add_line(add_line(acc, x), strip_cr(c2)) == add_line(acc, strip_cr(c))) by {
            match acc {
                Some(p) => {
                    assert(p + newline() + x + newline() + strip_cr(c2) =~= p + newline() + (x
                        + newline() + strip_cr(c2)));
                },
                None => {},
            }
        }
    }
}

/// Leading whitespace of `s + t` is that of `s`, and of `t` too when `s` is all whitespace.
pub proof fn lemma_trim_start_concat(s: Seq<char>, t: Seq<char>)
    ensures
        trim_start(s + t) == if trim_start(s).len() > 0 {
            trim_start(s) + t
        } else {
            trim_start(t)
        },
    decreases s.len(),
{
    if s.len() == 0 {
        assert(s + t =~= t);
    } else {
        assert((s + t)[0] == s[0]);
        if is_ws(s[0]) {
            assert((s + t).drop_first() =~= s.drop_first() + t);
            lemma_trim_start_concat(s.drop_first(), t);
        }
    }
}

/// Trailing whitespace does not change the trimmed text.
pub proof fn lemma_trim_push_ws(s: Seq<char>, w: char)
    requires
        is_ws(w),
    ensures
        trim(s.push(w)) == trim(s),
{
    lemma_trim_start_concat(s, seq![w]);
    assert(s + seq![w] =~= s.push(w));
    let a = trim_start(s);
    if a.len() > 0 {
        assert((a + seq![w]).drop_last() =~= a);
    } else {
        assert(seq![w].drop_first() =~= Seq::<char>::empty());
        assert(trim_start(seq![w]) == trim_start(Seq::<char>::empty()));
    }
}

/// Trimming ignores a final `\r`.
pub proof fn lemma_trim_strip_cr(c: Seq<char>)
    ensures
        trim(strip_cr(c)) == trim(c),
{
    if c.len() > 0 && c.last() == '\r' {
        assert(c.drop_last().push('\r') =~= c);
        lemma_trim_push_ws(c.drop_last(), '\r');
    }
}

/// The line that opens an entry.
pub open spec fn entry_line(c: CommentRecord) -> Seq<char> {
    entry_marker() + c.timestamp + seq![']', ' ', '-', ' '] + c.author
}

/// A comment whose text decodes to itself: its timestamp has no `]`, its
/// author is trimmed, neither breaks the line, its content has no `\r\n`, and
/// no line of the content starts like an entry (`### [`) or a heading (`## `).
pub open spec fn is_encodable(c: CommentRecord) -> bool {
    &&& !contains(c.timestamp, seq![']'])
    &&& !contains(c.timestamp, newline())
    &&& !contains(c.author, newline())
    &&& trim(c.author) == c.author
    &&& !contains(c.content, seq!['\r', '\n'])
    &&& forall|i: int|
        0 <= i < lines_of(c.content + newline()).len() ==> is_plain_line(
            #[trigger] lines_of(c.content + newline())[i],
        )
}

/// The comments as decoding gives them back: contents trimmed.
pub open spec fn trimmed(cs: Seq<CommentRecord>) -> Seq<CommentRecord> {
    cs.map_values(
        |c: CommentRecord| CommentRecord { author: c.author, timestamp: c.timestamp, content: trim(c.content) },
    )
}

proof fn lemma_no_match_in_concat(x: Seq<char>, y: Seq<char>, p: Seq<char>)
    requires
        !contains(x, p),
        !contains(y, p),
        p.len() == 1,
    ensures
        !contains(x + y, p),
{
    assert forall|i: int| !matches_at(x + y, p, i) by {
        if matches_at(x + y, p, i) {
            if i < x.len() {
                assert((x + y).subrange(i, i + 1) =~= x.subrange(i, i + 1));
                assert(matches_at(x, p, i));
            } else {
                assert((x + y).subrange(i, i + 1) =~= y.subrange(i - x.len(), i - x.len() + 1));
                assert(matches_at(y, p, i - x.len()));
            }
        }
    }
}

/// The entry line reads back as the comment's timestamp and author.
pub proof fn lemma_entry_line(c: CommentRecord)
    requires
        is_encodable(c),
    ensures
        starts_with(entry_line(c), entry_marker()),
        entry_header(entry_line(c)) == Some((c.timestamp, c.author)),
        strip_cr(entry_line(c)) == entry_line(c),
        !contains(entry_line(c), newline()),
{
    let hl = entry_line(c);
    let ts = c.timestamp;
    let a = c.author;
    assert(hl.take(5) =~= entry_marker());
    let cb = 5 + ts.len() as int;
    let br = seq![']'];
    assert(matches_at(hl, br, cb)) by {
        assert(hl.subrange(cb, cb + 1) =~= br);
    }
    assert forall|i: int| 0 <= i < cb implies !matches_at(hl, br, i) by {
        assert(hl.subrange(i, i + 1)[0] == hl[i]);
        if i >= 5 {
            assert(hl.subrange(i, i + 1) =~= ts.subrange(i - 5, i - 4));
            if matches_at(hl, br, i) {
                assert(matches_at(ts, br, i - 5));
            }
        }
    }
    lemma_find_from_first(hl, br, 0, cb);
    assert(hl.subrange(5, cb) =~= ts);
    let rest = hl.skip(cb + 1);
    assert(rest =~= author_separator() + a);
    assert(matches_at(rest, author_separator(), 0)) by {
        assert(rest.subrange(0, 3) =~= author_separator());
    }
    lemma_find_from_first(rest, author_separator(), 0, 0);
    assert(rest.skip(3) =~= a);
    assert(author_of(rest) == a);
    if a.len() > 0 {
        lemma_trim_idempotent(a);
        assert(hl.last() == a.last());
    } else {
        assert(hl.last() == ' ');
    }
    assert(!contains(entry_marker(), newline())) by {
        assert forall|i: int| !matches_at(entry_marker(), newline(), i) by {
            if matches_at(entry_marker(), newline(), i) {
                assert(entry_marker().subrange(i, i + 1)[0] == entry_marker()[i]);
            }
        }
    }
    assert(!contains(seq![']', ' ', '-', ' '], newline())) by {
        assert forall|i: int| !matches_at(seq![']', ' ', '-', ' '], newline(), i) by {
            if matches_at(seq![']', ' ', '-', ' '], newline(), i) {
                assert(seq![']', ' ', '-', ' '].subrange(i, i + 1)[0] == seq![']', ' ', '-', ' '][i]);
            }
        }
    }
    lemma_no_match_in_concat(entry_marker(), ts, newline());
    lemma_no_match_in_concat(entry_marker() + ts, seq![']', ' ', '-', ' '], newline());
    lemma_no_match_in_concat(entry_marker() + ts + seq![']', ' ', '-', ' '], a, newline());
}

/// The lines of an entry followed by more text.
pub proof fn lemma_entry_lines(c: CommentRecord, rest: Seq<char>)
    requires
        is_encodable(c),
    ensures
        lines_of(entry_text(c) + rest) == seq![Seq::<char>::empty(), entry_line(c)] + lines_of(
            c.content + newline(),
        ) + lines_of(rest),
{
    lemma_entry_line(c);
    let hl = entry_line(c);
    let cn = c.content + newline();
    assert(entry_text(c) + rest =~= newline() + ((hl + newline()) + (cn + rest)));
    lemma_lines_concat(newline(), (hl + newline()) + (cn + rest));
    lemma_lines_concat(hl + newline(), cn + rest);
    lemma_lines_concat(cn, rest);
    assert(!contains(Seq::<char>::empty(), newline()));
    lemma_lines_single(Seq::<char>::empty());
    assert(Seq::<char>::empty() + newline() =~= newline());
    lemma_lines_single(hl);
    assert(strip_cr(Seq::<char>::empty()) =~= Seq::<char>::empty());
    assert(lines_of(entry_text(c) + rest) =~= seq![Seq::<char>::empty(), entry_line(c)] + lines_of(
        cn,
    ) + lines_of(rest));
}

/// Reading the lines of encoded entries, after whatever entry was being read.
pub proof fn lemma_scan_entries(
    cs: Seq<CommentRecord>,
    cur: Option<(Seq<char>, Seq<char>)>,
    acc: Option<Seq<char>>,
)
    requires
        forall|i: int| 0 <= i < cs.len() ==> is_encodable(#[trigger] cs[i]),
    ensures
        scan(lines_of(entries_text(cs)), cur, acc) == finish(
            cur,
            if cs.len() > 0 && cur is Some {
                add_line(acc, seq![])
            } else {
                acc
            },
        ) + trimmed(cs),
    decreases cs.len(),
{
    if cs.len() == 0 {
        assert(lines_of(entries_text(cs)) =~= Seq::<Seq<char>>::empty());
        assert(trimmed(cs) =~= Seq::<CommentRecord>::empty());
        assert(finish(cur, acc) + trimmed(cs) =~= finish(cur, acc));
    } else {
        let c0 = cs[0];
        assert(is_encodable(c0));
        let tail = cs.drop_first();
        assert forall|i: int| 0 <= i < tail.len() implies is_encodable(#[trigger] tail[i]) by {
            assert(tail[i] == cs[i + 1]);
        }
        let rest = entries_text(tail);
        let hl = entry_line(c0);
        let c_lines = lines_of(c0.content + newline());
        let l = seq![Seq::<char>::empty(), hl] + c_lines + lines_of(rest);
        lemma_entry_lines(c0, rest);
        lemma_entry_line(c0);
        assert(lines_of(entries_text(cs)) == l);
        let acc1 = if cur is Some {
            add_line(acc, seq![])
        } else {
            acc
        };
        assert(l[0] == Seq::<char>::empty());
        assert(!starts_with(l[0], entry_marker()));
        assert(!starts_with(l[0], section_marker()));
        let l1 = l.drop_first();
        assert(l1 =~= seq![hl] + c_lines + lines_of(rest));
        assert(scan(l, cur, acc) == scan(l1, cur, acc1));
        assert(l1[0] == hl);
        let l2 = c_lines + lines_of(rest);
        assert(l1.drop_first() =~= l2);
        let h0 = (c0.timestamp, c0.author);
        assert(scan(l1, cur, acc1) == finish(cur, acc1) + scan(l2, Some(h0), None));
        assert forall|i: int| 0 <= i < c_lines.len() implies is_plain_line(#[trigger] c_lines[i]) by {
        }
        lemma_scan_plain(c_lines, lines_of(rest), h0, None);
        lemma_extend_content(None, c0.content);
        let sc = strip_cr(c0.content);
        lemma_scan_entries(tail, Some(h0), Some(sc));
        let acc2 = if tail.len() > 0 {
            add_line(Some(sc), seq![])
        } else {
            Some(sc)
        };
        lemma_trim_strip_cr(c0.content);
        if tail.len() > 0 {
            assert(sc + newline() + Seq::<char>::empty() =~= sc.push('\n'));
            lemma_trim_push_ws(sc, '\n');
        }
        let r0 = CommentRecord { author: c0.author, timestamp: c0.timestamp, content: trim(c0.content) };
        assert(finish(Some(h0), acc2) =~= seq![r0]);
        assert(trimmed(cs) =~= seq![r0] + trimmed(tail));
        assert(scan(l, cur, acc) =~= finish(cur, acc1) + trimmed(cs));
    }
}

/// In an encoded body the comments heading is found where it was written.
proof fn lemma_heading_found(r: Seq<char>, e: Seq<char>)
    requires
        !contains(r, heading_marker()),
        !ends_with(r, heading_marker().drop_last()),
    ensures
        find(r + seq!['\n'] + heading_marker() + e, heading_marker()) == Some(r.len() as int + 1),
{
    let hm = heading_marker();
    let o = r + seq!['\n'] + hm + e;
    let n = r.len() as int;
    let k = n + 1;
    assert(matches_at(o, hm, k)) by {
        assert(o.subrange(k, k + 13) =~= hm);
    }
    assert forall|i: int| 0 <= i < k implies !matches_at(o, hm, i) by {
        if matches_at(o, hm, i) {
            let w = o.subrange(i, i + 13);
            if i + 13 <= n {
                assert(w =~= r.subrange(i, i + 13));
                assert(matches_at(r, hm, i));
            } else if i == n {
                assert(w[1] == o[n + 1]);
            } else if i == n - 12 {
                assert(r.skip(n - 12) =~= w.take(12));
                assert(hm.take(12) =~= hm.drop_last());
            } else {
                let m = n - i;
                assert(w[m] == o[n]);
                assert(hm[m] != '\n') by {
                    assert(1 <= m <= 11);
                    assert(hm[1] == '#' && hm[2] == '#' && hm[3] == ' ' && hm[4] == 'C' && hm[5]
                        == 'o' && hm[6] == 'm' && hm[7] == 'm' && hm[8] == 'e' && hm[9] == 'n'
                        && hm[10] == 't' && hm[11] == 's');
                }
            }
        }
    }
    lemma_find_from_first(o, hm, 0, k);
}

/// Encoding comments into a body and decoding the result gives the comments
/// back in order, each with its content trimmed. This holds for comments that
/// the text can carry (`is_encodable`) and for bodies whose kept text holds no
/// second comments heading and does not end with a `## Comments` line (or,
/// with no comments, begin with one).
pub proof fn lemma_comment_round_trip(body: Seq<char>, cs: Seq<CommentRecord>)
    requires
        forall|i: int| 0 <= i < cs.len() ==> is_encodable(#[trigger] cs[i]),
        !contains(without_comments(body), heading_marker()),
        cs.len() > 0 ==> !ends_with(without_comments(body), heading_marker().drop_last()),
        cs.len() == 0 ==> !starts_with(without_comments(body), heading_at_start()),
    ensures
        decode_comments(encode_comments(body, cs)) == trimmed(cs),
{
    let r = without_comments(body);
    let hm = heading_marker();
    if cs.len() == 0 {
        lemma_find_from(r, hm, 0);
        assert(trimmed(cs) =~= Seq::<CommentRecord>::empty());
    } else {
        let e = entries_text(cs);
        let o = encode_comments(body, cs);
        assert(o =~= r + seq!['\n'] + hm + e);
        let k = r.len() as int + 1;
        lemma_heading_found(r, e);
        assert(o.skip(k + 13) =~= e);
        lemma_scan_entries(cs, None, None);
        assert(finish(None, None) + trimmed(cs) =~= trimmed(cs));
    }
}

/// `## Comments`: the heading text itself.
pub open spec fn comments_heading() -> Seq<char> {
    heading_marker().subrange(1, 12)
}

/// With no comments to write, a body that has no `## Comments` heading comes
/// back with trailing whitespace trimmed and still without the heading; when
/// it does not start with whitespace, that is the body fully trimmed.
pub proof fn lemma_empty_comments_collapse(body: Seq<char>)
    requires
        !contains(body, comments_heading()),
    ensures
        encode_comments(body, seq![]) == trim_end(body),
        !contains(encode_comments(body, seq![]), comments_heading()),
        body.len() == 0 || !is_ws(body[0]) ==> encode_comments(body, seq![]) == trim(body),
{
    let hm = heading_marker();
    let ch = comments_heading();
    lemma_find_from(body, hm, 0);
    if find(body, hm) is Some {
        let i = find(body, hm)->0;
        assert(body.subrange(i + 1, i + 12) =~= body.subrange(i, i + 13).subrange(1, 12));
        assert(matches_at(body, ch, i + 1));
    }
    if starts_with(body, heading_at_start()) {
        assert(body.subrange(0, 11) =~= body.take(12).subrange(0, 11));
        assert(heading_at_start().subrange(0, 11) =~= ch);
        assert(matches_at(body, ch, 0));
    }
    let t = trim_end(body);
    lemma_trim_end_shape(body);
    assert forall|i: int| !matches_at(t, ch, i) by {
        if matches_at(t, ch, i) {
            assert(t.subrange(i, i + 11) =~= body.subrange(i, i + 11));
            assert(matches_at(body, ch, i));
        }
    }
}

/// Where a body holds the comments heading, nothing after a later `## `
/// heading is read: the body decodes as the text before that heading line
/// does. (A body that only
/// opens with the heading is covered where the later text does not hold the
/// heading again, since that occurrence would be the one read.)
pub proof fn lemma_later_section_ignored(x: Seq<char>, y: Seq<char>)
    requires
        contains(x, heading_marker()) || (starts_with(x, heading_at_start()) && !contains(
            x + seq!['\n', '#', '#', ' '] + y,
            heading_marker(),
        )),
    ensures
        decode_comments(x + seq!['\n', '#', '#', ' '] + y) == decode_comments(x),
{
    let hm = heading_marker();
    let z1 = newline();
    let z2 = seq!['\n', '#', '#', ' '] + y;
    assert(x + seq!['\n', '#', '#', ' '] + y =~= x + z2);
    let start = if contains(x, hm) {
        lemma_find_from(x, hm, 0);
        let w = choose|i: int| matches_at(x, hm, i);
        assert(matches_at(x, hm, w));
        lemma_find_prefix(x, z1, hm);
        lemma_find_prefix(x, z2, hm);
        find(x, hm)->0 + 13
    } else {
        lemma_find_from(x + z2, hm, 0);
        assert forall|i: int| !matches_at(x + z1, hm, i) by {
            if matches_at(x + z1, hm, i) {
                assert((x + z1).subrange(i, i + 13) =~= (x + z2).subrange(i, i + 13));
                assert(matches_at(x + z2, hm, i));
            }
        }
        lemma_find_from(x + z1, hm, 0);
        assert forall|i: int| !matches_at(x, hm, i) by {
            if matches_at(x, hm, i) {
                assert(x.subrange(i, i + 13) =~= (x + z1).subrange(i, i + 13));
                assert(matches_at(x + z1, hm, i));
            }
        }
        lemma_find_from(x, hm, 0);
        assert((x + z1).take(12) =~= x.take(12));
        assert((x + z2).take(12) =~= x.take(12));
        12
    };
    let rest = x.skip(start);
    let s1 = (x + z1).skip(start);
    let s2 = (x + z2).skip(start);
    let h = seq!['#', '#', ' '] + y;
    assert(s1 =~= rest + newline());
    assert(s2 =~= s1 + h);
    lemma_lines_concat(s1, h);
    assert(h.take(3) =~= section_marker());
    lemma_first_line_is_heading(h);
    lemma_scan_stops(lines_of(s1), lines_of(h), None, None);
    lemma_final_newline_ignored(rest);
}

/// The first occurrence in `x` is the first in `x + z` too.
proof fn lemma_find_prefix(x: Seq<char>, z: Seq<char>, p: Seq<char>)
    requires
        find(x, p) is Some,
    ensures
        find(x + z, p) == find(x, p),
{
    lemma_find_from(x, p, 0);
    let k = find(x, p)->0;
    let xz = x + z;
    assert(xz.subrange(k, k + p.len()) =~= x.subrange(k, k + p.len()));
    assert forall|j: int| 0 <= j < k implies !matches_at(xz, p, j) by {
        assert(!matches_at(x, p, j));
        assert(xz.subrange(j, j + p.len()) =~= x.subrange(j, j + p.len()));
    }
    lemma_find_from_first(xz, p, 0, k);
}

/// The first line of a text that starts with `## ` is a heading line.
proof fn lemma_first_line_is_heading(h: Seq<char>)
    requires
        starts_with(h, section_marker()),
    ensures
        lines_of(h).len() > 0,
        starts_with(lines_of(h)[0], section_marker()),
        !starts_with(lines_of(h)[0], entry_marker()),
{
    lemma_find_from(h, newline(), 0);
    assert(h.take(3) =~= section_marker());
    if find(h, newline()) is Some {
        let j = find(h, newline())->0;
        assert(h.subrange(j, j + 1)[0] == h[j]);
        if j < 3 {
            assert(h.take(3)[j] == h[j]);
        }
        let l = strip_cr(h.take(j));
        if j == 3 {
            assert(h.take(j).last() == ' ');
        }
        assert(l.len() >= 3);
        assert(l.take(3) =~= h.take(3));
        if l.len() >= 5 {
            assert(l.take(5)[2] == l.take(3)[2]);
        }
    } else {
        if h.len() >= 5 {
            assert(h.take(5)[2] == h.take(3)[2]);
        }
    }
}

/// A heading line ends the reading of comments.
proof fn lemma_scan_stops(
    l: Seq<Seq<char>>,
    r: Seq<Seq<char>>,
    cur: Option<(Seq<char>, Seq<char>)>,
    acc: Option<Seq<char>>,
)
    requires
        r.len() > 0,
        starts_with(r[0], section_marker()),
        !starts_with(r[0], entry_marker()),
    ensures
        scan(l + r, cur, acc) == scan(l, cur, acc),
    decreases l.len(),
{
    if l.len() == 0 {
        assert(l + r =~= r);
    } else {
        assert((l + r)[0] == l[0]);
        assert((l + r).drop_first() =~= l.drop_first() + r);
        let line = l[0];
        if starts_with(line, entry_marker()) {
            lemma_scan_stops(l.drop_first(), r, entry_header(line), None);
        } else if starts_with(line, section_marker()) {
        } else if cur is Some {
            lemma_scan_stops(l.drop_first(), r, cur, add_line(acc, line));
        } else {
            lemma_scan_stops(l.drop_first(), r, cur, acc);
        }
    }
}

/// A body without the comments heading holds no comments: reading it gives
/// an empty list, not an error.
pub proof fn lemma_no_heading_no_comments(body: Seq<char>)
    requires
        !contains(body, heading_marker()),
        !starts_with(body, heading_at_start()),
    ensures
        decode_comments(body) == Seq::<CommentRecord>::empty(),
{
    lemma_find_from(body, heading_marker(), 0);
}

/// Writing comments keeps the text outside the comment section as it is: for
/// a body made of text `p`, the comments heading, the section's own lines `s`
/// (none of which starts with `## `) and a later section `## t`, what is kept
/// is `p`, its line ended, then the later section, trailing whitespace trimmed.
pub proof fn lemma_later_sections_kept(p: Seq<char>, s: Seq<char>, t: Seq<char>)
    requires
        find(p + heading_marker() + s + later_heading() + t, heading_marker()) == Some(
            p.len() as int,
        ),
        !contains(s, later_heading()),
        !starts_with(s + later_heading() + t, section_marker()),
    ensures
        without_comments(p + heading_marker() + s + later_heading() + t) == trim_end(
            p + newline() + section_marker() + t,
        ),
{
    let body = p + heading_marker() + s + later_heading() + t;
    let sec = s + later_heading() + t;
    assert(body.take(p.len() as int + 1) =~= p + newline());
    assert(body.skip(p.len() as int + 13) =~= sec);
    lemma_section_end_found(s, t);
    assert(sec.skip(s.len() as int + 1) =~= section_marker() + t);
    assert(p + newline() + (section_marker() + t) =~= p + newline() + section_marker() + t);
}

/// The section ends at the first later heading line.
proof fn lemma_section_end_found(s: Seq<char>, t: Seq<char>)
    requires
        !contains(s, later_heading()),
        !starts_with(s + later_heading() + t, section_marker()),
    ensures
        section_end(s + later_heading() + t) == Some(s.len() as int + 1),
{
    let lh = later_heading();
    let sec = s + lh + t;
    let k = s.len() as int;
    assert(matches_at(sec, lh, k)) by {
        assert(sec.subrange(k, k + 4) =~= lh);
    }
    assert forall|j: int| 0 <= j < k implies !matches_at(sec, lh, j) by {
        if matches_at(sec, lh, j) {
            if j + 4 <= k {
                assert(sec.subrange(j, j + 4) =~= s.subrange(j, j + 4));
                assert(matches_at(s, lh, j));
            } else {
                assert(sec.subrange(j, j + 4)[k - j] == sec[k]);
                assert(lh[1] == '#' && lh[2] == '#' && lh[3] == ' ');
            }
        }
    }
    lemma_find_from_first(sec, lh, 0, k);
}

/// A blank line at the end changes no comment: it can only add trailing
/// whitespace to the last content.
proof fn lemma_scan_blank_end(
    l: Seq<Seq<char>>,
    cur: Option<(Seq<char>, Seq<char>)>,
    acc: Option<Seq<char>>,
)
    ensures
        scan(l.push(Seq::<char>::empty()), cur, acc) == scan(l, cur, acc),
    decreases l.len(),
{
    let e = Seq::<char>::empty();
    let lp = l.push(e);
    if l.len() == 0 {
        assert(lp[0] == e);
        assert(lp.drop_first() =~= Seq::<Seq<char>>::empty());
        assert(!starts_with(e, entry_marker()));
        assert(!starts_with(e, section_marker()));
        assert(scan(lp, cur, acc) == if cur is Some {
            scan(Seq::<Seq<char>>::empty(), cur, add_line(acc, e))
        } else {
            scan(Seq::<Seq<char>>::empty(), cur, acc)
        });
        match acc {
            Some(p) => {
                assert(p + newline() + e =~= p.push('\n'));
                lemma_trim_push_ws(p, '\n');
            },
            None => {},
        }
    } else {
        assert(lp[0] == l[0]);
        assert(lp.drop_first() =~= l.drop_first().push(e));
        let line = l[0];
        if starts_with(line, entry_marker()) {
            lemma_scan_blank_end(l.drop_first(), entry_header(line), None);
        } else if starts_with(line, section_marker()) {
        } else if cur is Some {
            lemma_scan_blank_end(l.drop_first(), cur, add_line(acc, line));
        } else {
            lemma_scan_blank_end(l.drop_first(), cur, acc);
        }
    }
}

/// A final `\r` does not change where a pattern that does not end with `\r`
/// is first found.
proof fn lemma_find_ignores_cr(w: Seq<char>, p: Seq<char>)
    requires
        w.len() > 0,
        w.last() == '\r',
        p.len() > 0,
        p.last() != '\r',
    ensures
        find(w, p) == find(w.drop_last(), p),
{
    let v = w.drop_last();
    lemma_find_from(v, p, 0);
    lemma_find_from(w, p, 0);
    assert forall|j: int| 0 <= j && j + p.len() <= v.len() implies matches_at(w, p, j)
        == matches_at(v, p, j) by {
        assert(w.subrange(j, j + p.len()) =~= v.subrange(j, j + p.len()));
    }
    assert forall|j: int| 0 <= j && j + p.len() == w.len() implies !matches_at(w, p, j) by {
        if matches_at(w, p, j) {
            assert(w.subrange(j, j + p.len())[p.len() - 1] == w.last());
        }
    }
    match find(v, p) {
        Some(k) => {
            lemma_find_from_first(w, p, 0, k);
        },
        None => {
            assert forall|j: int| 0 <= j implies !matches_at(w, p, j) by {
                if matches_at(w, p, j) && j + p.len() < w.len() {
                    assert(matches_at(v, p, j));
                }
            }
            if find(w, p) is Some {
                assert(matches_at(w, p, find(w, p)->0));
            }
        },
    }
}

/// A final `\r` does not change whether a line starts with a marker that
/// does not end with `\r`.
proof fn lemma_starts_with_ignores_cr(w: Seq<char>, m: Seq<char>)
    requires
        w.len() > 0,
        w.last() == '\r',
        m.len() > 0,
        m.last() != '\r',
    ensures
        starts_with(w, m) == starts_with(w.drop_last(), m),
{
    let v = w.drop_last();
    if v.len() >= m.len() {
        assert(w.take(m.len() as int) =~= v.take(m.len() as int));
    } else if w.len() == m.len() {
        if starts_with(w, m) {
            assert(w.take(m.len() as int) =~= w);
        }
    }
}

/// A final `\r` does not change what an entry line says.
proof fn lemma_entry_header_ignores_cr(w: Seq<char>)
    requires
        w.len() > 0,
        w.last() == '\r',
        starts_with(w, entry_marker()),
    ensures
        entry_header(w) == entry_header(w.drop_last()),
{
    let v = w.drop_last();
    lemma_find_ignores_cr(w, seq![']']);
    lemma_find_from(v, seq![']'], 0);
    if find(v, seq![']']) is Some {
        let cb = find(v, seq![']'])->0;
        assert(matches_at(v, seq![']'], cb));
        assert(v.subrange(cb, cb + 1)[0] == v[cb]);
        if cb < 5 {
            assert(w.take(5)[cb] == w[cb]);
            assert(v[cb] == w[cb]);
        }
        assert(w.subrange(5, cb) =~= v.subrange(5, cb));
        let r = w.skip(cb + 1);
        let rv = v.skip(cb + 1);
        assert(r =~= rv.push('\r'));
        assert(r.drop_last() =~= rv);
        lemma_find_ignores_cr(r, author_separator());
        lemma_find_from(rv, author_separator(), 0);
        if find(rv, author_separator()) is Some {
            let d = find(rv, author_separator())->0;
            assert(r.skip(d + 3) =~= rv.skip(d + 3).push('\r'));
            lemma_trim_push_ws(rv.skip(d + 3), '\r');
        }
    }
}

/// A final `\r` on the last line changes no comment.
proof fn lemma_scan_last_cr(
    m: Seq<Seq<char>>,
    w: Seq<char>,
    cur: Option<(Seq<char>, Seq<char>)>,
    acc: Option<Seq<char>>,
)
    ensures
        scan(m.push(w), cur, acc) == scan(m.push(strip_cr(w)), cur, acc),
    decreases m.len(),
{
    let v = strip_cr(w);
    if v == w {
    } else if m.len() == 0 {
        let lw = m.push(w);
        let lv = m.push(v);
        assert(lw[0] == w && lv[0] == v);
        assert(lw.drop_first() =~= Seq::<Seq<char>>::empty());
        assert(lv.drop_first() =~= Seq::<Seq<char>>::empty());
        assert(w.len() > 0 && w.last() == '\r' && v == w.drop_last());
        lemma_starts_with_ignores_cr(w, entry_marker());
        lemma_starts_with_ignores_cr(w, section_marker());
        if starts_with(w, entry_marker()) {
            lemma_entry_header_ignores_cr(w);
            assert(scan(lw, cur, acc) == finish(cur, acc) + scan(
                Seq::<Seq<char>>::empty(),
                entry_header(w),
                None,
            ));
            assert(scan(lv, cur, acc) == finish(cur, acc) + scan(
                Seq::<Seq<char>>::empty(),
                entry_header(v),
                None,
            ));
        }
        if !starts_with(w, entry_marker()) && !starts_with(w, section_marker()) && cur is Some {
            let e = Seq::<Seq<char>>::empty();
            assert(scan(lw, cur, acc) == scan(lw.drop_first(), cur, add_line(acc, w)));
            assert(scan(lv, cur, acc) == scan(lv.drop_first(), cur, add_line(acc, v)));
            assert(scan(e, cur, add_line(acc, w)) == finish(cur, add_line(acc, w)));
            assert(scan(e, cur, add_line(acc, v)) == finish(cur, add_line(acc, v)));
            let x = match add_line(acc, w) {
                Some(q) => q,
                None => seq![],
            };
            let y = match add_line(acc, v) {
                Some(q) => q,
                None => seq![],
            };
            match acc {
                Some(p) => {
                    assert(x =~= (p + newline() + v).push('\r'));
                    assert(y =~= p + newline() + v);
                    lemma_trim_push_ws(p + newline() + v, '\r');
                },
                None => {
                    assert(x =~= v.push('\r'));
                    lemma_trim_push_ws(v, '\r');
                },
            }
            assert(trim(x) == trim(y));
        }
    } else {
        let lw = m.push(w);
        let lv = m.push(v);
        assert(lw[0] == m[0] && lv[0] == m[0]);
        assert(lw.drop_first() =~= m.drop_first().push(w));
        assert(lv.drop_first() =~= m.drop_first().push(v));
        let line = m[0];
        if starts_with(line, entry_marker()) {
            lemma_scan_last_cr(m.drop_first(), w, entry_header(line), None);
        } else if starts_with(line, section_marker()) {
        } else if cur is Some {
            lemma_scan_last_cr(m.drop_first(), w, cur, add_line(acc, line));
        } else {
            lemma_scan_last_cr(m.drop_first(), w, cur, acc);
        }
    }
}

/// A newline after a last line that has none only takes a final `\r` off it.
proof fn lemma_lines_closed(rest: Seq<char>)
    requires
        rest.len() > 0,
        rest.last() != '\n',
    ensures
        lines_of(rest).len() > 0,
        lines_of(rest + newline()) == lines_of(rest).drop_last().push(
            strip_cr(lines_of(rest).last()),
        ),
    decreases rest.len(),
{
    let n = newline();
    lemma_find_from(rest, n, 0);
    match find(rest, n) {
        None => {
            assert(!contains(rest, n));
            lemma_lines_single(rest);
            assert(lines_of(rest) == seq![rest]);
            assert(seq![rest].drop_last().push(strip_cr(rest)) =~= seq![strip_cr(rest)]);
        },
        Some(j) => {
            assert(rest.subrange(j, j + 1)[0] == rest[j]);
            assert(j < rest.len() - 1);
            lemma_find_prefix(rest, n, n);
            let t = rest.skip(j + 1);
            assert(t.last() == rest.last());
            lemma_lines_closed(t);
            assert((rest + n).take(j) =~= rest.take(j));
            assert((rest + n).skip(j + 1) =~= t + n);
            let a = strip_cr(rest.take(j));
            assert(lines_of(rest) == seq![a] + lines_of(t));
            assert(lines_of(rest + n) == seq![a] + lines_of(t + n));
            assert((seq![a] + lines_of(t)).drop_last().push(strip_cr(lines_of(t).last())) =~= seq![
                a,
            ] + lines_of(t).drop_last().push(strip_cr(lines_of(t).last())));
        },
    }
}

/// A newline at the end of a comment section changes no comment.
proof fn lemma_final_newline_ignored(rest: Seq<char>)
    ensures
        scan(lines_of(rest + newline()), None, None) == scan(lines_of(rest), None, None),
{
    let n = newline();
    let e = Seq::<char>::empty();
    if rest.len() == 0 {
        assert(rest + n =~= e + n);
        lemma_lines_single(e);
        assert(strip_cr(e) =~= e);
        let l = seq![e];
        assert(l[0] == e);
        assert(l.drop_first() =~= Seq::<Seq<char>>::empty());
        assert(lines_of(rest) =~= Seq::<Seq<char>>::empty());
    } else if rest.last() == '\n' {
        lemma_lines_concat(rest, n);
        lemma_lines_single(e);
        assert(e + n =~= n);
        assert(strip_cr(e) =~= e);
        assert(lines_of(rest) + seq![e] =~= lines_of(rest).push(e));
        lemma_scan_blank_end(lines_of(rest), None, None);
    } else {
        lemma_lines_closed(rest);
        let l = lines_of(rest);
        assert(l =~= l.drop_last().push(l.last()));
        lemma_scan_last_cr(l.drop_last(), l.last(), None, None);
    }
}

proof fn lemma_no_match_in_prefix(a: Seq<char>, k: int, p: Seq<char>)
    requires
        !contains(a, p),
        0 <= k <= a.len(),
    ensures
        !contains(a.take(k), p),
{
    assert forall|i: int| !matches_at(a.take(k), p, i) by {
        if matches_at(a.take(k), p, i) {
            assert(a.take(k).subrange(i, i + p.len()) =~= a.subrange(i, i + p.len()));
            assert(matches_at(a, p, i));
        }
    }
}

/// Joining two texts where the first is empty or ends a line makes no new
/// occurrence of a pattern that holds no line break.
proof fn lemma_no_match_across_line(a: Seq<char>, b: Seq<char>, p: Seq<char>)
    requires
        !contains(a, p),
        !contains(b, p),
        a.len() == 0 || a.last() == '\n',
        p.len() > 0,
        forall|i: int| 0 <= i < p.len() ==> p[i] != '\n',
    ensures
        !contains(a + b, p),
{
    let j = a + b;
    let n = a.len() as int;
    assert forall|i: int| !matches_at(j, p, i) by {
        if matches_at(j, p, i) {
            let w = j.subrange(i, i + p.len());
            if i + p.len() <= n {
                assert(w =~= a.subrange(i, i + p.len()));
                assert(matches_at(a, p, i));
            } else if i >= n {
                assert(w =~= b.subrange(i - n, i - n + p.len()));
                assert(matches_at(b, p, i - n));
            } else {
                assert(w[n - 1 - i] == j[n - 1]);
            }
        }
    }
}

/// Writing no comments removes the comment section's heading: where the
/// heading text `## Comments` stands nowhere else in the body, the result
/// holds it nowhere, and reads back as no comments.
pub proof fn lemma_empty_comments_drop_heading(body: Seq<char>)
    requires
        heading_span(body) is Some,
        !contains(body.take((heading_span(body)->0).0), comments_heading()),
        !contains(later_sections(body.skip((heading_span(body)->0).1)), comments_heading()),
    ensures
        !contains(encode_comments(body, seq![]), comments_heading()),
        decode_comments(encode_comments(body, seq![])) == Seq::<CommentRecord>::empty(),
{
    let ch = comments_heading();
    let (k, s) = heading_span(body)->0;
    let before = body.take(k);
    let r = without_comments(body);
    assert(ch.len() == 11);
    assert forall|i: int| 0 <= i < ch.len() implies ch[i] != '\n' by {
        assert(ch[i] == heading_marker()[i + 1]);
    }
    lemma_find_from(body, heading_marker(), 0);
    if k > 0 {
        let p = k - 1;
        assert(find(body, heading_marker()) == Some(p));
        assert(matches_at(body, heading_marker(), p));
        assert(body.subrange(p, p + 13)[0] == body[p]);
        assert(heading_marker()[0] == '\n');
        assert(body[p] == '\n');
        assert(before.len() == k);
        assert(before.last() == body[p]);
    } else {
        assert(before.len() == 0);
    }
    let j = before + later_sections(body.skip(s));
    lemma_no_match_across_line(before, later_sections(body.skip(s)), ch);
    lemma_trim_end_shape(j);
    lemma_no_match_in_prefix(j, trim_end(j).len() as int, ch);
    assert(!contains(r, ch));
    assert(!contains(r, heading_marker())) by {
        assert forall|i: int| !matches_at(r, heading_marker(), i) by {
            if matches_at(r, heading_marker(), i) {
                assert(r.subrange(i + 1, i + 12) =~= r.subrange(i, i + 13).subrange(1, 12));
                assert(matches_at(r, ch, i + 1));
            }
        }
    }
    assert(!starts_with(r, heading_at_start())) by {
        if starts_with(r, heading_at_start()) {
            assert(r.take(12) == heading_at_start());
            assert(r.subrange(0, 11) =~= heading_at_start().subrange(0, 11));
            assert(heading_at_start().subrange(0, 11) =~= ch);
            assert(matches_at(r, ch, 0));
        }
    }
    lemma_no_heading_no_comments(r);
}

} // verus!
