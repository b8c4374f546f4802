//! Workspace configuration, statuses and priorities.

use vstd::prelude::*;
use crate::text::{chars_of, push_char, push_chars, same_chars, string_of};

verus! {

/// The `[workspace]` table of the configuration file.
#[derive(Debug, Clone)]
pub struct WorkspaceConfig {
    pub version: String,
    pub base_directory: String,
}

/// The `[defaults]` table: values given to new entities.
#[derive(Debug, Clone)]
pub struct DefaultConfig {
    pub priority: String,
    pub status: String,
}

/// The whole configuration file.
#[derive(Debug, Clone)]
pub struct Config {
    pub workspace: WorkspaceConfig,
    pub defaults: DefaultConfig,
}

/// The base directory used when the configuration names none: the workspace root.
pub fn default_base_directory() -> (r: String)
    ensures
        r@ == seq!['.'],
{
    let mut r = String::new();
    push_char(&mut r, '.');
    r
}

/// Relies on `str::to_lowercase`: the result depends on the characters alone.
pub uninterp spec fn lower_of(s: Seq<char>) -> Seq<char>;

pub open spec fn is_ascii_text(s: Seq<char>) -> bool {
    forall|i: int| 0 <= i < s.len() ==> (#[trigger] s[i] as u32) < 128
}

/// The lowercase form of an ASCII character: `A` to `Z` become `a` to `z`.
pub open spec fn ascii_lower(c: char) -> char {
    if 'A' <= c <= 'Z' {
        seq![
            'a', 'b', 'c', 'd', 'e', 'f', 'g', 'h', 'i', 'j', 'k', 'l', 'm', 'n', 'o', 'p', 'q',
            'r', 's', 't', 'u', 'v', 'w', 'x', 'y', 'z',
        ][(c as u32 - 'A' as u32) as int]
    } else {
        c
    }
}

/// ASCII text lowercased: `A` to `Z` become `a` to `z`, the rest is kept.
pub open spec fn ascii_lowercase(s: Seq<char>) -> Seq<char> {
    s.map_values(|c: char| ascii_lower(c))
}

/// Relies on `str::to_lowercase`, which maps each character to its lowercase
/// form: the empty string stays empty, and ASCII text has `A` to `Z` lowered
/// and every other character kept.
#[verifier::external_body]
pub(crate) fn to_lower(s: &str) -> (r: String)
    ensures
        r@ == lower_of(s@),
        s@.len() == 0 ==> r@.len() == 0,
        is_ascii_text(s@) ==> r@ == ascii_lowercase(s@),
{
    s.to_lowercase()
}

/// Why a status or priority could not be read.
#[derive(Debug, Clone)]
pub enum ModelError {
    InvalidStatus(String),
    InvalidPriority(String),
}

impl ModelError {
    /// The message shown to a user.
    pub fn message(&self) -> (r: String)
        ensures
            r@ == match self {
                ModelError::InvalidStatus(s) => seq![
                    'I', 'n', 'v', 'a', 'l', 'i', 'd', ' ', 's', 't', 'a', 't', 'u', 's', ':', ' ',
                ] + s@,
                ModelError::InvalidPriority(s) => seq![
                    'I', 'n', 'v', 'a', 'l', 'i', 'd', ' ', 'p', 'r', 'i', 'o', 'r', 'i', 't', 'y', ':', ' ',
                ] + s@,
            },
    {
        let mut r = String::new();
        match self {
            ModelError::InvalidStatus(s) => {
                let head: Vec<char> = vec![
                    'I', 'n', 'v', 'a', 'l', 'i', 'd', ' ', 's', 't', 'a', 't', 'u', 's', ':', ' ',
                ];
                push_chars(&mut r, &head);
                r.append(s.as_str());
            },
            ModelError::InvalidPriority(s) => {
                let head: Vec<char> = vec![
                    'I', 'n', 'v', 'a', 'l', 'i', 'd', ' ', 'p', 'r', 'i', 'o', 'r', 'i', 't', 'y', ':', ' ',
                ];
                push_chars(&mut r, &head);
                r.append(s.as_str());
            },
        }
        r
    }
}

/// Status of a project, milestone or issue.
#[derive(Debug, Clone, Copy, PartialEq, Eq, Structural, Hash)]
pub enum Status {
    Backlog,
    Todo,
    InProgress,
    Completed,
    Cancelled,
}

/// The status a lowercase word names, with `inprogress`, `done` and
/// `canceled` accepted as other spellings.
pub open spec fn status_named(w: Seq<char>) -> Option<Status> {
    if w == seq!['b', 'a', 'c', 'k', 'l', 'o', 'g'] {
        Some(Status::Backlog)
    } else if w == seq!['t', 'o', 'd', 'o'] {
        Some(Status::Todo)
    } else if w == seq!['i', 'n', '-', 'p', 'r', 'o', 'g', 'r', 'e', 's', 's'] || w == seq![
        'i',
        'n',
        'p',
        'r',
        'o',
        'g',
        'r',
        'e',
        's',
        's',
    ] {
        Some(Status::InProgress)
    } else if w == seq!['c', 'o', 'm', 'p', 'l', 'e', 't', 'e', 'd'] || w == seq!['d', 'o', 'n', 'e'] {
        Some(Status::Completed)
    } else if w == seq!['c', 'a', 'n', 'c', 'e', 'l', 'l', 'e', 'd'] || w == seq![
        'c',
        'a',
        'n',
        'c',
        'e',
        'l',
        'e',
        'd',
    ] {
        Some(Status::Cancelled)
    } else {
        None
    }
}

impl Status {
    /// The name a status is written with.
    pub open spec fn name(self) -> Seq<char> {
        match self {
            Status::Backlog => seq!['b', 'a', 'c', 'k', 'l', 'o', 'g'],
            Status::Todo => seq!['t', 'o', 'd', 'o'],
            Status::InProgress => seq!['i', 'n', '-', 'p', 'r', 'o', 'g', 'r', 'e', 's', 's'],
            Status::Completed => seq!['c', 'o', 'm', 'p', 'l', 'e', 't', 'e', 'd'],
            Status::Cancelled => seq!['c', 'a', 'n', 'c', 'e', 'l', 'l', 'e', 'd'],
        }
    }

    /// The status a word already in lowercase names.
    pub fn from_lowercase(w: &str) -> (r: Option<Status>)
        ensures
            r == status_named(w@),
    {
        let v = chars_of(w);
        if same_chars(&v, &vec!['b', 'a', 'c', 'k', 'l', 'o', 'g']) {
            Some(Status::Backlog)
        } else if same_chars(&v, &vec!['t', 'o', 'd', 'o']) {
            Some(Status::Todo)
        } else if same_chars(&v, &vec!['i', 'n', '-', 'p', 'r', 'o', 'g', 'r', 'e', 's', 's']) || same_chars(
            &v,
            &vec!['i', 'n', 'p', 'r', 'o', 'g', 'r', 'e', 's', 's'],
        ) {
            Some(Status::InProgress)
        } else if same_chars(&v, &vec!['c', 'o', 'm', 'p', 'l', 'e', 't', 'e', 'd']) || same_chars(
            &v,
            &vec!['d', 'o', 'n', 'e'],
        ) {
            Some(Status::Completed)
        } else if same_chars(&v, &vec!['c', 'a', 'n', 'c', 'e', 'l', 'l', 'e', 'd']) || same_chars(
            &v,
            &vec!['c', 'a', 'n', 'c', 'e', 'l', 'e', 'd'],
        ) {
            Some(Status::Cancelled)
        } else {
            None
        }
    }

    /// The status written with exactly this name (no other spelling).
    pub fn from_name(w: &str) -> (r: Option<Status>)
        ensures
            match r {
                Some(st) => st.name() == w@,
                None => forall|st: Status| st.name() != w@,
            },
    {
        let found = Status::from_lowercase(w);
        match found {
            Some(st) => {
                let v = chars_of(w);
                let name = st.to_string();
                if same_chars(&v, &chars_of(name.as_str())) {
                    Some(st)
                } else {
                    None
                }
            },
            None => None,
        }
    }

    /// Reads a status, ignoring case.
    pub fn parse(s: &str) -> (r: Result<Status, ModelError>)
        ensures
            match status_named(lower_of(s@)) {
                Some(st) => r == Ok::<Status, ModelError>(st),
                None => r matches Err(ModelError::InvalidStatus(t)) && t@ == s@,
            },
            is_ascii_text(s@) ==> lower_of(s@) == ascii_lowercase(s@),
    {
        let lowered = to_lower(s);
        match Status::from_lowercase(lowered.as_str()) {
            Some(st) => Ok(st),
            None => Err(ModelError::InvalidStatus(s.to_owned())),
        }
    }

    /// The name a status is written with.
    pub fn to_string(&self) -> (r: String)
        ensures
            r@ == self.name(),
    {
        let v: Vec<char> = match self {
            Status::Backlog => vec!['b', 'a', 'c', 'k', 'l', 'o', 'g'],
            Status::Todo => vec!['t', 'o', 'd', 'o'],
            Status::InProgress => vec!['i', 'n', '-', 'p', 'r', 'o', 'g', 'r', 'e', 's', 's'],
            Status::Completed => vec!['c', 'o', 'm', 'p', 'l', 'e', 't', 'e', 'd'],
            Status::Cancelled => vec!['c', 'a', 'n', 'c', 'e', 'l', 'l', 'e', 'd'],
        };
        let r = string_of(&v, 0, v.len());
        assert(v@.subrange(0, v.len() as int) =~= self.name());
        r
    }
}

impl std::str::FromStr for Status {
    type Err = ModelError;

    fn from_str(s: &str) -> Result<Status, ModelError> {
        Status::parse(s)
    }
}

/// Priority of a project or issue, from lowest to highest.
#[derive(Debug, Clone, Copy, PartialEq, Eq, Structural, PartialOrd, Ord, Hash)]
pub enum Priority {
    Low,
    Medium,
    High,
    Urgent,
}

/// The priority a lowercase word names.
pub open spec fn priority_named(w: Seq<char>) -> Option<Priority> {
    if w == seq!['l', 'o', 'w'] {
        Some(Priority::Low)
    } else if w == seq!['m', 'e', 'd', 'i', 'u', 'm'] {
        Some(Priority::Medium)
    } else if w == seq!['h', 'i', 'g', 'h'] {
        Some(Priority::High)
    } else if w == seq!['u', 'r', 'g', 'e', 'n', 't'] {
        Some(Priority::Urgent)
    } else {
        None
    }
}

impl Priority {
    /// The name a priority is written with.
    pub open spec fn name(self) -> Seq<char> {
        match self {
            Priority::Low => seq!['l', 'o', 'w'],
            Priority::Medium => seq!['m', 'e', 'd', 'i', 'u', 'm'],
            Priority::High => seq!['h', 'i', 'g', 'h'],
            Priority::Urgent => seq!['u', 'r', 'g', 'e', 'n', 't'],
        }
    }

    /// Position in the order from `Low` to `Urgent`.
    pub open spec fn rank(self) -> nat {
        match self {
            Priority::Low => 0,
            Priority::Medium => 1,
            Priority::High => 2,
            Priority::Urgent => 3,
        }
    }

    /// The priority a word already in lowercase names.
    pub fn from_lowercase(w: &str) -> (r: Option<Priority>)
        ensures
            r == priority_named(w@),
    {
        let v = chars_of(w);
        if same_chars(&v, &vec!['l', 'o', 'w']) {
            Some(Priority::Low)
        } else if same_chars(&v, &vec!['m', 'e', 'd', 'i', 'u', 'm']) {
            Some(Priority::Medium)
        } else if same_chars(&v, &vec!['h', 'i', 'g', 'h']) {
            Some(Priority::High)
        } else if same_chars(&v, &vec!['u', 'r', 'g', 'e', 'n', 't']) {
            Some(Priority::Urgent)
        } else {
            None
        }
    }

    /// Reads a priority, ignoring case.
    pub fn parse(s: &str) -> (r: Result<Priority, ModelError>)
        ensures
            match priority_named(lower_of(s@)) {
                Some(p) => r == Ok::<Priority, ModelError>(p),
                None => r matches Err(ModelError::InvalidPriority(t)) && t@ == s@,
            },
            is_ascii_text(s@) ==> lower_of(s@) == ascii_lowercase(s@),
    {
        let lowered = to_lower(s);
        match Priority::from_lowercase(lowered.as_str()) {
            Some(p) => Ok(p),
            None => Err(ModelError::InvalidPriority(s.to_owned())),
        }
    }

    /// The name a priority is written with.
    pub fn to_string(&self) -> (r: String)
        ensures
            r@ == self.name(),
    {
        let v: Vec<char> = match self {
            Priority::Low => vec!['l', 'o', 'w'],
            Priority::Medium => vec!['m', 'e', 'd', 'i', 'u', 'm'],
            Priority::High => vec!['h', 'i', 'g', 'h'],
            Priority::Urgent => vec!['u', 'r', 'g', 'e', 'n', 't'],
        };
        let r = string_of(&v, 0, v.len());
        assert(v@.subrange(0, v.len() as int) =~= self.name());
        r
    }
}

impl std::str::FromStr for Priority {
    type Err = ModelError;

    fn from_str(s: &str) -> Result<Priority, ModelError> {
        Priority::parse(s)
    }
}

} // verus!
