//! Export requests: which format and which kind of entity, and the CSV lines.

use vstd::prelude::*;
use crate::models::{ascii_lowercase, is_ascii_text, lower_of, to_lower, Priority, Status};
use crate::text::{chars_of, push_char, same_chars, strings_view};

verus! {

#[derive(Debug, Clone, Copy, PartialEq, Eq, Structural)]
pub enum ExportFormat {
    Json,
    Csv,
}

#[derive(Debug, Clone, Copy, PartialEq, Eq, Structural)]
pub enum EntityKind {
    Project,
    Milestone,
    Issue,
    All,
}

/// What an export writes.
#[derive(Debug, Clone, Copy, PartialEq, Eq, Structural)]
pub struct ExportPlan {
    pub format: ExportFormat,
    pub entity: EntityKind,
}

/// Why an export request was refused.
#[derive(Debug, Clone)]
pub enum ExportError {
    /// The format is neither `json` nor `csv` (in any case).
    UnsupportedFormat(String),
    /// The entity type is not `project`, `milestone`, `issue` or `all`.
    InvalidEntityType(String),
    /// CSV has one table per entity type, so `all` cannot be written as CSV.
    CsvAllUnsupported,
}

pub open spec fn format_named(w: Seq<char>) -> Option<ExportFormat> {
    if w == seq!['j', 's', 'o', 'n'] {
        Some(ExportFormat::Json)
    } else if w == seq!['c', 's', 'v'] {
        Some(ExportFormat::Csv)
    } else {
        None
    }
}

pub open spec fn entity_named(w: Seq<char>) -> Option<EntityKind> {
    if w == seq!['p', 'r', 'o', 'j', 'e', 'c', 't'] {
        Some(EntityKind::Project)
    } else if w == seq!['m', 'i', 'l', 'e', 's', 't', 'o', 'n', 'e'] {
        Some(EntityKind::Milestone)
    } else if w == seq!['i', 's', 's', 'u', 'e'] {
        Some(EntityKind::Issue)
    } else if w == seq!['a', 'l', 'l'] {
        Some(EntityKind::All)
    } else {
        None
    }
}

/// Whether the result is the outcome of an export request whose format,
/// lowercased, is `format_lower`.
pub open spec fn is_plan_for(
    r: Result<ExportPlan, ExportError>,
    format: Seq<char>,
    format_lower: Seq<char>,
    entity_type: Seq<char>,
) -> bool {
    match format_named(format_lower) {
        None => r matches Err(ExportError::UnsupportedFormat(f)) && f@ == format,
        Some(fmt) => match entity_named(entity_type) {
            None => r matches Err(ExportError::InvalidEntityType(t)) && t@ == entity_type,
            Some(EntityKind::All) if fmt == ExportFormat::Csv => r matches Err(
                ExportError::CsvAllUnsupported,
            ),
            Some(kind) => r == Ok::<ExportPlan, ExportError>(ExportPlan { format: fmt, entity: kind }),
        },
    }
}

/// Decides an export request given its format already lowercased.
pub fn plan_export(format: &str, format_lower: &str, entity_type: &str) -> (r: Result<
    ExportPlan,
    ExportError,
>)
    ensures
        is_plan_for(r, format@, format_lower@, entity_type@),
{
    let f = chars_of(format_lower);
    let fmt = if same_chars(&f, &vec!['j', 's', 'o', 'n']) {
        ExportFormat::Json
    } else if same_chars(&f, &vec!['c', 's', 'v']) {
        ExportFormat::Csv
    } else {
        return Err(ExportError::UnsupportedFormat(format.to_owned()));
    };
    let e = chars_of(entity_type);
    let kind = if same_chars(&e, &vec!['p', 'r', 'o', 'j', 'e', 'c', 't']) {
        EntityKind::Project
    } else if same_chars(&e, &vec!['m', 'i', 'l', 'e', 's', 't', 'o', 'n', 'e']) {
        EntityKind::Milestone
    } else if same_chars(&e, &vec!['i', 's', 's', 'u', 'e']) {
        EntityKind::Issue
    } else if same_chars(&e, &vec!['a', 'l', 'l']) {
        EntityKind::All
    } else {
        return Err(ExportError::InvalidEntityType(entity_type.to_owned()));
    };
    match (fmt, kind) {
        (ExportFormat::Csv, EntityKind::All) => Err(ExportError::CsvAllUnsupported),
        _ => Ok(ExportPlan { format: fmt, entity: kind }),
    }
}

/// Decides an export request: the format is read ignoring case.
pub fn export(format: &str, entity_type: &str) -> (r: Result<ExportPlan, ExportError>)
    ensures
        is_plan_for(r, format@, lower_of(format@), entity_type@),
        is_ascii_text(format@) ==> lower_of(format@) == ascii_lowercase(format@),
{
    let lowered = to_lower(format);
    plan_export(format, lowered.as_str(), entity_type)
}

/// `s` with each `"` doubled, as a CSV field inside quotes needs.
pub open spec fn csv_escaped(s: Seq<char>) -> Seq<char>
    decreases s.len(),
{
    if s.len() == 0 {
        seq![]
    } else {
        (if s[0] == '"' {
            seq!['"', '"']
        } else {
            seq![s[0]]
        }) + csv_escaped(s.drop_first())
    }
}

/// A CSV field in quotes, its quotes doubled.
pub open spec fn quoted(s: Seq<char>) -> Seq<char> {
    seq!['"'] + csv_escaped(s) + seq!['"']
}

/// The texts joined with `sep` between them.
pub open spec fn joined(parts: Seq<Seq<char>>, sep: char) -> Seq<char>
    decreases parts.len(),
{
    if parts.len() == 0 {
        seq![]
    } else if parts.len() == 1 {
        parts[0]
    } else {
        parts[0] + seq![sep] + joined(parts.drop_first(), sep)
    }
}

pub open spec fn comma() -> Seq<char> {
    seq![',']
}

/// A project's CSV line: name, status, priority, created, updated.
pub open spec fn project_line(
    name: Seq<char>,
    status: Status,
    priority: Priority,
    created: Seq<char>,
    updated: Seq<char>,
) -> Seq<char> {
    quoted(name) + comma() + status.name() + comma() + priority.name() + comma() + created + comma()
        + updated + seq!['\n']
}

/// A milestone's CSV line: title, status, project, target date, created, updated.
pub open spec fn milestone_line(
    title: Seq<char>,
    status: Status,
    project: Seq<char>,
    target_date: Seq<char>,
    created: Seq<char>,
    updated: Seq<char>,
) -> Seq<char> {
    quoted(title) + comma() + status.name() + comma() + quoted(project) + comma() + target_date
        + comma() + created + comma() + updated + seq!['\n']
}

/// An issue's CSV line: title, status, priority, project, milestone, tags
/// joined with `;` (in quotes, as they are), created, updated.
pub open spec fn issue_line(
    title: Seq<char>,
    status: Status,
    priority: Priority,
    project: Seq<char>,
    milestone: Seq<char>,
    tags: Seq<Seq<char>>,
    created: Seq<char>,
    updated: Seq<char>,
) -> Seq<char> {
    quoted(title) + comma() + status.name() + comma() + priority.name() + comma() + quoted(project)
        + comma() + quoted(milestone) + comma() + seq!['"'] + joined(tags, ';') + seq!['"']
        + comma() + created + comma() + updated + seq!['\n']
}

/// Appends `s` in quotes, its quotes doubled.
fn push_quoted(r: &mut String, s: &str)
    ensures
        final(r)@ == old(r)@ + quoted(s@),
{
    let v = chars_of(s);
    let ghost r0 = r@;
    push_char(r, '"');
    let mut i: usize = 0;
    assert(v@.skip(0) =~= v@);
    while i < v.len()
        invariant
            i <= v.len(),
            r@ + csv_escaped(v@.skip(i as int)) == r0 + seq!['"'] + csv_escaped(v@),
        decreases v.len() - i,
    {
        let ghost rest = v@.skip(i as int);
        assert(rest.drop_first() =~= v@.skip(i + 1));
        if v[i] == '"' {
            push_char(r, '"');
            push_char(r, '"');
        } else {
            push_char(r, v[i]);
        }
        assert(r@ + csv_escaped(v@.skip(i + 1)) =~= r0 + seq!['"'] + csv_escaped(v@));
        i = i + 1;
    }
    assert(v@.skip(v.len() as int) =~= Seq::<char>::empty());
    push_char(r, '"');
    assert(r@ =~= r0 + quoted(s@));
}

/// The texts joined with `;`.
pub fn join_tags(tags: &Vec<String>) -> (r: String)
    ensures
        r@ == joined(strings_view(tags@), ';'),
{
    let ghost parts = strings_view(tags@);
    let mut r = String::new();
    if tags.len() == 0 {
        return r;
    }
    r.append(tags[0].as_str());
    let mut i: usize = 1;
    while i < tags.len()
        invariant
            1 <= i <= tags.len(),
            parts == strings_view(tags@),
            joined(parts.take(i as int), ';') == r@,
        decreases tags.len() - i,
    {
        proof {
            lemma_joined_push(parts.take(i as int), parts[i as int], ';');
            assert(parts.take(i as int).push(parts[i as int]) =~= parts.take(i + 1));
        }
        push_char(&mut r, ';');
        r.append(tags[i].as_str());
        i = i + 1;
    }
    assert(parts.take(tags.len() as int) =~= parts);
    r
}

proof fn lemma_joined_push(parts: Seq<Seq<char>>, last: Seq<char>, sep: char)
    requires
        parts.len() > 0,
    ensures
        joined(parts.push(last), sep) == joined(parts, sep) + seq![sep] + last,
    decreases parts.len(),
{
    let p = parts.push(last);
    assert(p[0] == parts[0]);
    if parts.len() == 1 {
        assert(p.drop_first() =~= seq![last]);
        assert(joined(seq![last], sep) == last);
    } else {
        assert(p.drop_first() =~= parts.drop_first().push(last));
        lemma_joined_push(parts.drop_first(), last, sep);
    }
}

/// The CSV line of a project.
pub fn project_csv_line(
    name: &str,
    status: Status,
    priority: Priority,
    created: &str,
    updated: &str,
) -> (r: String)
    ensures
        r@ == project_line(name@, status, priority, created@, updated@),
{
    let mut r = String::new();
    push_quoted(&mut r, name);
    push_char(&mut r, ',');
    r.append(status.to_string().as_str());
    push_char(&mut r, ',');
    r.append(priority.to_string().as_str());
    push_char(&mut r, ',');
    r.append(created);
    push_char(&mut r, ',');
    r.append(updated);
    push_char(&mut r, '\n');
    assert(r@ =~= project_line(name@, status, priority, created@, updated@));
    r
}

/// The CSV line of a milestone.
pub fn milestone_csv_line(
    title: &str,
    status: Status,
    project: &str,
    target_date: &str,
    created: &str,
    updated: &str,
) -> (r: String)
    ensures
        r@ == milestone_line(title@, status, project@, target_date@, created@, updated@),
{
    let mut r = String::new();
    push_quoted(&mut r, title);
    push_char(&mut r, ',');
    r.append(status.to_string().as_str());
    push_char(&mut r, ',');
    push_quoted(&mut r, project);
    push_char(&mut r, ',');
    r.append(target_date);
    push_char(&mut r, ',');
    r.append(created);
    push_char(&mut r, ',');
    r.append(updated);
    push_char(&mut r, '\n');
    assert(r@ =~= milestone_line(title@, status, project@, target_date@, created@, updated@));
    r
}

/// The CSV line of an issue.
pub fn issue_csv_line(
    title: &str,
    status: Status,
    priority: Priority,
    project: &str,
    milestone: &str,
    tags: &Vec<String>,
    created: &str,
    updated: &str,
) -> (r: String)
    ensures
        r@ == issue_line(
            title@,
            status,
            priority,
            project@,
            milestone@,
            strings_view(tags@),
            created@,
            updated@,
        ),
{
    let mut r = String::new();
    push_quoted(&mut r, title);
    push_char(&mut r, ',');
    r.append(status.to_string().as_str());
    push_char(&mut r, ',');
    r.append(priority.to_string().as_str());
    push_char(&mut r, ',');
    push_quoted(&mut r, project);
    push_char(&mut r, ',');
    push_quoted(&mut r, milestone);
    push_char(&mut r, ',');
    push_char(&mut r, '"');
    r.append(join_tags(tags).as_str());
    push_char(&mut r, '"');
    push_char(&mut r, ',');
    r.append(created);
    push_char(&mut r, ',');
    r.append(updated);
    push_char(&mut r, '\n');
    assert(r@ =~= issue_line(
        title@,
        status,
        priority,
        project@,
        milestone@,
        strings_view(tags@),
        created@,
        updated@,
    ));
    r
}

/// The header line of a CSV export of one kind of entity.
pub fn csv_header(entity: EntityKind) -> (r: String)
    requires
        entity != EntityKind::All,
    ensures
        r@ == match entity {
            EntityKind::Project => "name,status,priority,created,updated\n"@,
            EntityKind::Milestone => "title,status,project,target_date,created,updated\n"@,
            _ => "title,status,priority,project,milestone,tags,created,updated\n"@,
        },
{
    match entity {
        EntityKind::Project => String::from_str("name,status,priority,created,updated\n"),
        EntityKind::Milestone => String::from_str(
            "title,status,project,target_date,created,updated\n",
        ),
        _ => String::from_str("title,status,priority,project,milestone,tags,created,updated\n"),
    }
}

} // verus!
