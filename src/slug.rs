//! File-name slugs: every character other than a letter, a digit, `-` or `_`
//! becomes `-`, doubled dashes are halved, and dashes at either end go.

use vstd::prelude::*;
use crate::text::{chars_of, push_char};

verus! {

/// Relies on `char::is_alphanumeric`: whether a character is Unicode
/// alphabetic or numeric, which depends on the character alone.
pub uninterp spec fn is_alphanumeric(c: char) -> bool;

/// Relies on `char::is_alphanumeric`; among ASCII characters exactly the
/// letters and digits are alphanumeric.
#[verifier::external_body]
pub(crate) fn alphanumeric(c: char) -> (r: bool)
    ensures
        r == is_alphanumeric(c),
        (c as u32) < 128 ==> (r <==> is_ascii_alnum(c)),
{
    c.is_alphanumeric()
}

pub open spec fn is_ascii_alnum(c: char) -> bool {
    'a' <= c <= 'z' || 'A' <= c <= 'Z' || '0' <= c <= '9'
}

/// What the alphanumeric test was seen to give on the ASCII characters of `s`.
pub open spec fn ascii_classified(s: Seq<char>) -> bool {
    forall|i: int|
        0 <= i < s.len() && (#[trigger] s[i] as u32) < 128 ==> (is_alphanumeric(s[i])
            <==> is_ascii_alnum(s[i]))
}

pub open spec fn is_slug_char(c: char) -> bool {
    is_alphanumeric(c) || c == '-' || c == '_'
}

/// Each character that may not stand in a slug replaced by `-`.
pub open spec fn dashed(s: Seq<char>) -> Seq<char> {
    s.map_values(|c: char| if is_slug_char(c) { c } else { '-' })
}

/// Each `--`, read from the left without overlap, replaced by `-`.
pub open spec fn halve_dashes(s: Seq<char>) -> Seq<char>
    decreases s.len(),
{
    if s.len() == 0 {
        seq![]
    } else if s.len() >= 2 && s[0] == '-' && s[1] == '-' {
        seq!['-'] + halve_dashes(s.skip(2))
    } else {
        seq![s[0]] + halve_dashes(s.drop_first())
    }
}

pub open spec fn strip_dashes_start(s: Seq<char>) -> Seq<char>
    decreases s.len(),
{
    if s.len() > 0 && s[0] == '-' {
        strip_dashes_start(s.drop_first())
    } else {
        s
    }
}

pub open spec fn strip_dashes_end(s: Seq<char>) -> Seq<char>
    decreases s.len(),
{
    if s.len() > 0 && s.last() == '-' {
        strip_dashes_end(s.drop_last())
    } else {
        s
    }
}

/// The slug of a text.
pub open spec fn slug(s: Seq<char>) -> Seq<char> {
    strip_dashes_end(strip_dashes_start(halve_dashes(dashed(s))))
}

/// The first `n` characters of `s`, or all of them.
pub open spec fn first_chars(s: Seq<char>, n: nat) -> Seq<char> {
    if s.len() <= n {
        s
    } else {
        s.take(n as int)
    }
}

/// The slug of `v[0..n]`.
pub fn slug_of(v: &Vec<char>, n: usize) -> (r: String)
    requires
        n <= v.len(),
    ensures
        r@ == slug(v@.take(n as int)),
        ascii_classified(v@.take(n as int)),
{
    let ghost src = v@.take(n as int);
    let mut d: Vec<char> = Vec::new();
    let mut i: usize = 0;
    while i < n
        invariant
            i <= n <= v.len(),
            src == v@.take(n as int),
            d@ == dashed(src).take(i as int),
            forall|k: int|
                0 <= k < i && (#[trigger] src[k] as u32) < 128 ==> (is_alphanumeric(src[k])
                    <==> is_ascii_alnum(src[k])),
        decreases n - i,
    {
        let c = v[i];
        let keep = alphanumeric(c) || c == '-' || c == '_';
        d.push(if keep {
            c
        } else {
            '-'
        });
        assert(d@ =~= dashed(src).take(i + 1));
        i = i + 1;
    }
    assert(d@ =~= dashed(src));
    let mut h: Vec<char> = Vec::new();
    let mut j: usize = 0;
    assert(d@.skip(0) =~= d@);
    while j < d.len()
        invariant
            j <= d.len(),
            h@ + halve_dashes(d@.skip(j as int)) == halve_dashes(d@),
        decreases d.len() - j,
    {
        let ghost rest = d@.skip(j as int);
        if j + 1 < d.len() && d[j] == '-' && d[j + 1] == '-' {
            assert(rest.skip(2) =~= d@.skip(j + 2));
            h.push('-');
            assert(h@ + halve_dashes(d@.skip(j + 2)) =~= halve_dashes(d@));
            j = j + 2;
        } else {
            assert(rest.drop_first() =~= d@.skip(j + 1));
            h.push(d[j]);
            assert(h@ + halve_dashes(d@.skip(j + 1)) =~= halve_dashes(d@));
            j = j + 1;
        }
    }
    assert(d@.skip(d.len() as int) =~= Seq::<char>::empty());
    assert(h@ =~= halve_dashes(d@));
    let mut a: usize = 0;
    assert(h@.subrange(0, h.len() as int) =~= h@);
    while a < h.len() && h[a] == '-'
        invariant
            a <= h.len(),
            strip_dashes_start(h@) == strip_dashes_start(h@.subrange(a as int, h.len() as int)),
        decreases h.len() - a,
    {
        assert(h@.subrange(a as int, h.len() as int).drop_first() =~= h@.subrange(
            a + 1,
            h.len() as int,
        ));
        a = a + 1;
    }
    assert(strip_dashes_start(h@.subrange(a as int, h.len() as int)) == h@.subrange(
        a as int,
        h.len() as int,
    ));
    let mut b: usize = h.len();
    while b > a && h[b - 1] == '-'
        invariant
            a <= b <= h.len(),
            strip_dashes_end(h@.subrange(a as int, h.len() as int)) == strip_dashes_end(
                h@.subrange(a as int, b as int),
            ),
        decreases b,
    {
        assert(h@.subrange(a as int, b as int).drop_last() =~= h@.subrange(a as int, b - 1));
        b = b - 1;
    }
    let mut r = String::new();
    let mut k = a;
    while k < b
        invariant
            a <= k <= b <= h.len(),
            r@ == h@.subrange(a as int, k as int),
        decreases b - k,
    {
        push_char(&mut r, h[k]);
        assert(h@.subrange(a as int, k + 1) =~= h@.subrange(a as int, k as int).push(h@[k as int]));
        k = k + 1;
    }
    r
}

/// The slug of a text already in lowercase.
pub fn slugify(lowered: &str) -> (r: String)
    ensures
        r@ == slug(lowered@),
        ascii_classified(lowered@),
{
    let v = chars_of(lowered);
    assert(v@.take(v.len() as int) =~= v@);
    slug_of(&v, v.len())
}

} // verus!
