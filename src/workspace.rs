//! Decisions of the workspace store that need no disk: issue numbers, issue
//! file lookup by number, and the author name for new comments.

use vstd::prelude::*;
use crate::issue::{extract_issue_id, id_part};
use crate::text::{
    chars_of, occurs_at, push_char, push_chars, starts_with, string_of, strings_view, trim,
    trim_bounds,
};

verus! {

pub open spec fn is_digit(c: char) -> bool {
    '0' <= c <= '9'
}

pub open spec fn digit_value(c: char) -> nat {
    (c as u32 - '0' as u32) as nat
}

/// The number that a string of decimal digits spells.
pub open spec fn decimal_value(d: Seq<char>) -> nat
    decreases d.len(),
{
    if d.len() == 0 {
        0
    } else {
        decimal_value(d.drop_last()) * 10 + digit_value(d.last())
    }
}

/// The digits of an unsigned number as `str::parse` reads it: an optional `+`, then digits.
pub open spec fn unsigned_digits(s: Seq<char>) -> Seq<char> {
    if s.len() > 0 && s[0] == '+' {
        s.drop_first()
    } else {
        s
    }
}

/// What `str::parse` gives for an unsigned integer type whose largest value is `max`.
pub open spec fn parse_unsigned(s: Seq<char>, max: nat) -> Option<nat> {
    let d = unsigned_digits(s);
    if d.len() > 0 && (forall|i: int| 0 <= i < d.len() ==> is_digit(#[trigger] d[i]))
        && decimal_value(d) <= max {
        Some(decimal_value(d))
    } else {
        None
    }
}

proof fn lemma_prefix_value(d: Seq<char>, k: int)
    requires
        0 <= k <= d.len(),
    ensures
        decimal_value(d.take(k)) <= decimal_value(d),
    decreases d.len() - k,
{
    if k < d.len() {
        lemma_prefix_value(d, k + 1);
        assert(d.take(k + 1).drop_last() =~= d.take(k));
    } else {
        assert(d.take(k) =~= d);
    }
}

/// Reads an unsigned number no larger than `max`, as `str::parse` does.
pub fn parse_unsigned_text(s: &str, max: u64) -> (r: Option<u64>)
    ensures
        match parse_unsigned(s@, max as nat) {
            Some(n) => r == Some(n as u64),
            None => r is None,
        },
{
    let v = chars_of(s);
    let start: usize = if v.len() > 0 && v[0] == '+' {
        1
    } else {
        0
    };
    let ghost d = unsigned_digits(s@);
    assert(d =~= v@.skip(start as int));
    if start == v.len() {
        return None;
    }
    let mut acc: u64 = 0;
    let mut k: usize = start;
    while k < v.len()
        invariant
            start <= k <= v.len(),
            v@ == s@,
            d == unsigned_digits(s@),
            d == v@.skip(start as int),
            acc as nat == decimal_value(d.take(k - start)),
            acc <= max,
            forall|i: int| 0 <= i < k - start ==> is_digit(#[trigger] d[i]),
        decreases v.len() - k,
    {
        let c = v[k];
        assert(d[k - start] == c);
        if !('0' <= c && c <= '9') {
            assert(!is_digit(d[k - start]));
            return None;
        }
        let dv = (c as u32 - '0' as u32) as u64;
        assert(d.take(k + 1 - start).drop_last() =~= d.take(k - start));
        if dv > max || acc > (max - dv) / 10 {
            proof {
                if dv <= max {
                    assert(acc * 10 + dv > max) by (nonlinear_arith)
                        requires
                            acc > (max - dv) / 10,
                            dv <= max,
                    ;
                }
                lemma_prefix_value(d, k + 1 - start);
                assert(d.take(k + 1 - start).last() == c);
                assert(decimal_value(d.take(k + 1 - start)) == acc * 10 + dv);
            }
            return None;
        }
        assert(acc * 10 + dv <= max) by (nonlinear_arith)
            requires
                acc <= (max - dv) / 10,
                dv <= max,
        ;
        acc = acc * 10 + dv;
        k = k + 1;
    }
    assert(d.take(d.len() as int) =~= d);
    Some(acc)
}

/// The ten decimal digits.
pub open spec fn digit_char(n: nat) -> char {
    seq!['0', '1', '2', '3', '4', '5', '6', '7', '8', '9'][n as int]
}

/// The decimal digits of `n`, without leading zeros.
pub open spec fn decimal_digits(n: nat) -> Seq<char>
    decreases n,
{
    if n < 10 {
        seq![digit_char(n)]
    } else {
        decimal_digits(n / 10).push(digit_char(n % 10))
    }
}

/// `s` preceded by as many zeros as make it `width` characters long.
pub open spec fn zero_padded(s: Seq<char>, width: nat) -> Seq<char> {
    if s.len() >= width {
        s
    } else {
        Seq::new((width - s.len()) as nat, |i: int| '0') + s
    }
}

/// `n` in decimal, at least three digits (`format!("{:03}", n)`).
pub fn three_digit(n: u64) -> (r: String)
    ensures
        r@ == zero_padded(decimal_digits(n as nat), 3),
{
    let digits: Vec<char> = vec!['0', '1', '2', '3', '4', '5', '6', '7', '8', '9'];
    assert(digits@ =~= seq!['0', '1', '2', '3', '4', '5', '6', '7', '8', '9']);
    let mut out: Vec<char> = Vec::new();
    let mut m = n;
    while m >= 10
        invariant
            digits@ == seq!['0', '1', '2', '3', '4', '5', '6', '7', '8', '9'],
            decimal_digits(m as nat) + out@ == decimal_digits(n as nat),
        decreases m,
    {
        out.insert(0, digits[(m % 10) as usize]);
        assert(decimal_digits(m as nat) == decimal_digits((m / 10) as nat).push(
            digit_char((m % 10) as nat),
        ));
        assert(decimal_digits((m / 10) as nat) + out@ =~= decimal_digits(m as nat) + out@.drop_first());
        m = m / 10;
    }
    out.insert(0, digits[m as usize]);
    assert(out@ =~= decimal_digits(n as nat));
    let mut r = String::new();
    let mut z = out.len();
    while z < 3
        invariant
            out.len() <= z <= 3 || out.len() > 3 && z == out.len(),
            r@ == Seq::new((z - out.len()) as nat, |i: int| '0'),
        decreases 3 - z,
    {
        push_char(&mut r, '0');
        assert(r@ =~= Seq::new((z + 1 - out.len()) as nat, |i: int| '0'));
        z = z + 1;
    }
    let tail = string_of(&out, 0, out.len());
    assert(out@.subrange(0, out.len() as int) =~= out@);
    r.append(tail.as_str());
    assert(r@ =~= zero_padded(decimal_digits(n as nat), 3));
    r
}

/// The number an issue file name starts with; zero where none can be read.
pub open spec fn issue_number(name: Seq<char>) -> nat {
    match parse_unsigned(id_part(name), u32::MAX as nat) {
        Some(n) => n,
        None => 0,
    }
}

pub open spec fn highest_number(names: Seq<Seq<char>>) -> nat
    decreases names.len(),
{
    if names.len() == 0 {
        0
    } else {
        let a = highest_number(names.drop_last());
        let b = issue_number(names.last());
        if a >= b {
            a
        } else {
            b
        }
    }
}

/// The number for a new issue, given the file names in the project's issue
/// directory: one more than the highest number they start with, in at least
/// three digits (`001` for none).
pub fn next_issue_id(file_names: &Vec<String>) -> (r: String)
    ensures
        r@ == zero_padded(decimal_digits(highest_number(strings_view(file_names@)) + 1), 3),
{
    let ghost names = strings_view(file_names@);
    let mut highest: u64 = 0;
    let mut i: usize = 0;
    while i < file_names.len()
        invariant
            i <= file_names.len(),
            names == strings_view(file_names@),
            highest as nat == highest_number(names.take(i as int)),
            highest <= u32::MAX,
        decreases file_names.len() - i,
    {
        let id = extract_issue_id(Some(file_names[i].as_str()));
        let n: u64 = match parse_unsigned_text(id.as_str(), 4294967295) {
            Some(n) => n,
            None => 0,
        };
        assert(names.take(i + 1).drop_last() =~= names.take(i as int));
        assert(names.take(i + 1).last() == file_names@[i as int]@);
        if n > highest {
            highest = n;
        }
        i = i + 1;
    }
    assert(names.take(file_names.len() as int) =~= names);
    three_digit(highest + 1)
}

/// Whether a file in the issue directory holds the issue numbered `issue_id`:
/// its name starts with the number in three digits, or with `issue_id` as
/// given, followed by `-`. An id that is not a number counts as zero.
pub open spec fn holds_issue(file_name: Seq<char>, issue_id: Seq<char>) -> bool {
    let n = match parse_unsigned(issue_id, usize::MAX as nat) {
        Some(n) => n,
        None => 0,
    };
    starts_with(file_name, zero_padded(decimal_digits(n), 3) + seq!['-']) || starts_with(
        file_name,
        issue_id + seq!['-'],
    )
}

fn starts_with_text(v: &Vec<char>, p: &String) -> (r: bool)
    ensures
        r == starts_with(v@, p@),
{
    let pv = chars_of(p.as_str());
    let r = pv.len() <= v.len() && occurs_at(v, &pv, 0);
    proof {
        if pv.len() <= v.len() {
            assert(v@.take(pv.len() as int) =~= v@.subrange(0, pv.len() as int));
        }
    }
    r
}

/// Decides `holds_issue`.
pub fn issue_file_matches(file_name: &str, issue_id: &str) -> (r: bool)
    ensures
        r == holds_issue(file_name@, issue_id@),
{
    let v = chars_of(file_name);
    let n: u64 = match parse_unsigned_text(issue_id, usize::MAX as u64) {
        Some(n) => n,
        None => 0,
    };
    assert(usize::MAX as u64 as nat == usize::MAX as nat);
    let mut padded = three_digit(n);
    push_char(&mut padded, '-');
    let mut plain = String::from_str(issue_id);
    push_char(&mut plain, '-');
    assert(padded@ =~= zero_padded(decimal_digits(n as nat), 3) + seq!['-']);
    assert(plain@ =~= issue_id@ + seq!['-']);
    starts_with_text(&v, &padded) || starts_with_text(&v, &plain)
}

/// The author name for new comments: the git user name, trimmed, if git gave
/// a non-empty one; else the login name, if non-empty; else `Unknown`.
pub open spec fn author_name(git_name: Option<Seq<char>>, login: Option<Seq<char>>) -> Seq<char> {
    if git_name is Some && trim(git_name->0).len() > 0 {
        trim(git_name->0)
    } else if login is Some && login->0.len() > 0 {
        login->0
    } else {
        seq!['U', 'n', 'k', 'n', 'o', 'w', 'n']
    }
}

/// Decides `author_name` from what git printed and the login name, where available.
pub fn choose_author(git_name: Option<&str>, login: Option<&str>) -> (r: String)
    ensures
        r@ == author_name(
            match git_name {
                Some(g) => Some(g@),
                None => None,
            },
            match login {
                Some(u) => Some(u@),
                None => None,
            },
        ),
{
    if let Some(g) = git_name {
        let v = chars_of(g);
        let (a, b) = trim_bounds(&v, 0, v.len());
        assert(v@.subrange(0, v.len() as int) =~= g@);
        if a < b {
            return string_of(&v, a, b);
        }
    }
    if let Some(u) = login {
        if !u.is_empty() {
            return String::from_str(u);
        }
    }
    let unknown: Vec<char> = vec!['U', 'n', 'k', 'n', 'o', 'w', 'n'];
    let r = string_of(&unknown, 0, 7);
    assert(unknown@.subrange(0, 7) =~= seq!['U', 'n', 'k', 'n', 'o', 'w', 'n']);
    r
}

/// `.pillar`: the directory that holds the workspace's own files.
pub open spec fn workspace_dir() -> Seq<char> {
    seq!['.', 'p', 'i', 'l', 'l', 'a', 'r']
}

/// Whether a base directory would lie in the workspace's own directory:
/// `.pillar` itself or a path under `.pillar/`.
pub fn is_reserved_base_directory(dir: &str) -> (r: bool)
    ensures
        r == (dir@ == workspace_dir() || starts_with(dir@, workspace_dir().push('/'))),
{
    let v = chars_of(dir);
    let mut own = String::new();
    let w: Vec<char> = vec!['.', 'p', 'i', 'l', 'l', 'a', 'r'];
    push_chars(&mut own, &w);
    let exact = v.len() == 7 && starts_with_text(&v, &own);
    proof {
        if v.len() == 7 && starts_with(v@, own@) {
            assert(v@.take(7) =~= v@);
        }
        if v@ == workspace_dir() {
            assert(v@.take(7) =~= v@);
        }
    }
    push_char(&mut own, '/');
    exact || starts_with_text(&v, &own)
}

} // verus!
