//! The orders in which listings show entities.

use vstd::prelude::*;
use core::cmp::Ordering;
use crate::models::Priority;
use crate::text::chars_of;

verus! {

/// The order of `str::cmp`: by code point, character by character, a
/// prefix first.
pub open spec fn text_order(a: Seq<char>, b: Seq<char>) -> Ordering
    decreases a.len(),
{
    if a.len() == 0 && b.len() == 0 {
        Ordering::Equal
    } else if a.len() == 0 {
        Ordering::Less
    } else if b.len() == 0 {
        Ordering::Greater
    } else if a[0] < b[0] {
        Ordering::Less
    } else if a[0] > b[0] {
        Ordering::Greater
    } else {
        text_order(a.drop_first(), b.drop_first())
    }
}

/// Compares two texts as `str::cmp` does.
pub fn compare_text(a: &str, b: &str) -> (r: Ordering)
    ensures
        r == text_order(a@, b@),
{
    let x = chars_of(a);
    let y = chars_of(b);
    let mut i: usize = 0;
    assert(x@.skip(0) =~= x@ && y@.skip(0) =~= y@);
    while i < x.len() && i < y.len()
        invariant
            i <= x.len(),
            i <= y.len(),
            x@ == a@,
            y@ == b@,
            text_order(x@, y@) == text_order(x@.skip(i as int), y@.skip(i as int)),
        decreases x.len() - i,
    {
        assert(x@.skip(i as int)[0] == x@[i as int] && y@.skip(i as int)[0] == y@[i as int]);
        if x[i] < y[i] {
            return Ordering::Less;
        }
        if x[i] > y[i] {
            return Ordering::Greater;
        }
        assert(x@.skip(i as int).drop_first() =~= x@.skip(i + 1));
        assert(y@.skip(i as int).drop_first() =~= y@.skip(i + 1));
        i = i + 1;
    }
    assert(x@.skip(i as int).len() == 0 || y@.skip(i as int).len() == 0);
    if x.len() == y.len() {
        Ordering::Equal
    } else if i == x.len() {
        Ordering::Less
    } else {
        Ordering::Greater
    }
}

pub open spec fn rank_order(a: nat, b: nat) -> Ordering {
    if a < b {
        Ordering::Less
    } else if a > b {
        Ordering::Greater
    } else {
        Ordering::Equal
    }
}

/// The listing order of projects and issues: higher priority first, then
/// by name (or title).
pub open spec fn listing_order(pa: Priority, na: Seq<char>, pb: Priority, nb: Seq<char>) -> Ordering {
    match rank_order(pb.rank(), pa.rank()) {
        Ordering::Equal => text_order(na, nb),
        o => o,
    }
}

fn rank_of(p: Priority) -> (r: u8)
    ensures
        r as nat == p.rank(),
{
    match p {
        Priority::Low => 0,
        Priority::Medium => 1,
        Priority::High => 2,
        Priority::Urgent => 3,
    }
}

/// Compares two projects or issues in listing order.
pub fn compare_listing(pa: Priority, na: &str, pb: Priority, nb: &str) -> (r: Ordering)
    ensures
        r == listing_order(pa, na@, pb, nb@),
{
    let (ra, rb) = (rank_of(pa), rank_of(pb));
    if rb < ra {
        Ordering::Less
    } else if rb > ra {
        Ordering::Greater
    } else {
        compare_text(na, nb)
    }
}

/// `9999-12-31`: where a milestone without a target date is listed.
pub open spec fn no_date() -> Seq<char> {
    seq!['9', '9', '9', '9', '-', '1', '2', '-', '3', '1']
}

/// The listing order of milestones: by target date (those without one
/// last, as if due on `9999-12-31`), then by title.
pub open spec fn milestone_order(
    da: Option<Seq<char>>,
    ta: Seq<char>,
    db: Option<Seq<char>>,
    tb: Seq<char>,
) -> Ordering {
    let a = match da {
        Some(d) => d,
        None => no_date(),
    };
    let b = match db {
        Some(d) => d,
        None => no_date(),
    };
    match text_order(a, b) {
        Ordering::Equal => text_order(ta, tb),
        o => o,
    }
}

/// Compares two milestones in listing order.
pub fn compare_milestones(da: Option<&str>, ta: &str, db: Option<&str>, tb: &str) -> (r: Ordering)
    ensures
        r == milestone_order(
            match da {
                Some(d) => Some(d@),
                None => None,
            },
            ta@,
            match db {
                Some(d) => Some(d@),
                None => None,
            },
            tb@,
        ),
{
    let far = "9999-12-31";
    proof {
        reveal_strlit("9999-12-31");
    }
    assert(far@ =~= no_date());
    let a = match da {
        Some(d) => d,
        None => far,
    };
    let b = match db {
        Some(d) => d,
        None => far,
    };
    match compare_text(a, b) {
        Ordering::Equal => compare_text(ta, tb),
        o => o,
    }
}

} // verus!
