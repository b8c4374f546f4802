//! Which entities a listing keeps, given the filters on its command line.

use vstd::prelude::*;
use crate::models::{Priority, Status};
use crate::text::{chars_of, same_chars, strings_view};

verus! {

/// The filters of an issue listing; `None` keeps every value.
#[derive(Debug, Clone)]
pub struct IssueFilter {
    pub status: Option<Status>,
    pub priority: Option<Priority>,
    pub milestone: Option<String>,
    pub tag: Option<String>,
}

/// Whether an issue with these fields passes every filter that is set: equal
/// status, equal priority, the named milestone, and a tag equal to the one given.
pub open spec fn issue_selected(
    f: IssueFilter,
    status: Status,
    priority: Priority,
    milestone: Option<Seq<char>>,
    tags: Seq<Seq<char>>,
) -> bool {
    &&& (f.status matches Some(s) ==> s == status)
    &&& (f.priority matches Some(p) ==> p == priority)
    &&& (f.milestone matches Some(m) ==> milestone == Some(m@))
    &&& (f.tag matches Some(t) ==> exists|i: int| 0 <= i < tags.len() && tags[i] == t@)
}

fn same_text(a: &str, b: &str) -> (r: bool)
    ensures
        r == (a@ == b@),
{
    same_chars(&chars_of(a), &chars_of(b))
}

/// Decides `issue_selected`.
pub fn selects_issue(
    f: &IssueFilter,
    status: Status,
    priority: Priority,
    milestone: Option<&str>,
    tags: &Vec<String>,
) -> (r: bool)
    ensures
        r == issue_selected(
            *f,
            status,
            priority,
            match milestone {
                Some(m) => Some(m@),
                None => None,
            },
            strings_view(tags@),
        ),
{
    if let Some(s) = f.status {
        if s != status {
            return false;
        }
    }
    if let Some(p) = f.priority {
        if p != priority {
            return false;
        }
    }
    if let Some(m) = &f.milestone {
        match milestone {
            Some(x) => {
                if !same_text(x, m.as_str()) {
                    return false;
                }
            },
            None => {
                return false;
            },
        }
    }
    match &f.tag {
        Some(t) => has_tag(tags, t.as_str()),
        None => true,
    }
}

/// Whether one of the tags equals `t`.
fn has_tag(tags: &Vec<String>, t: &str) -> (r: bool)
    ensures
        r == exists|i: int| 0 <= i < tags.len() && strings_view(tags@)[i] == t@,
{
    let ghost tv = strings_view(tags@);
    let mut i: usize = 0;
    while i < tags.len()
        invariant
            i <= tags.len(),
            tv == strings_view(tags@),
            forall|k: int| 0 <= k < i ==> tv[k] != t@,
        decreases tags.len() - i,
    {
        if same_text(tags[i].as_str(), t) {
            assert(tv[i as int] == t@);
            return true;
        }
        i = i + 1;
    }
    false
}

/// Whether a project passes the status and priority filters that are set.
pub fn selects_project(
    status_filter: Option<Status>,
    priority_filter: Option<Priority>,
    status: Status,
    priority: Priority,
) -> (r: bool)
    ensures
        r == ((status_filter matches Some(s) ==> s == status) && (priority_filter matches Some(p)
            ==> p == priority)),
{
    let status_ok = match status_filter {
        Some(s) => s == status,
        None => true,
    };
    let priority_ok = match priority_filter {
        Some(p) => p == priority,
        None => true,
    };
    status_ok && priority_ok
}

} // verus!
