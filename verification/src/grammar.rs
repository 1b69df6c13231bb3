//! The meaning of a plan document, as mathematical functions on text.
//!
//! Everything here is specification: what each kind of line denotes, how the
//! lines of a task build the task, and how a document falls into features and
//! tasks. The parser in `fplan` is proved to compute exactly these functions.
use crate::text::{integer_isize, pieces, trimmed, without_char, without_prefix};
use vstd::prelude::*;

verus! {

/// What a `Record` holds.
pub struct RecordView {
    pub label: Seq<char>,
    pub value: Seq<char>,
}

/// What a `Dependency` holds.
pub struct DependencyView {
    pub team_alias: Seq<char>,
    pub by: Option<Seq<char>>,
    pub description: Seq<char>,
}

/// What an `Effort` holds.
pub struct EffortView {
    pub pds: int,
    pub service: Seq<char>,
}

/// What a `Resource` holds.
pub struct ResourceView {
    pub name: Seq<char>,
    pub when: Seq<char>,
}

/// What a `Task` holds.
pub struct TaskView {
    pub title: Seq<char>,
    pub links: Seq<RecordView>,
    pub by: Option<ResourceView>,
    pub effort: Option<EffortView>,
    pub notes: Seq<Seq<char>>,
    pub ticket: Seq<char>,
    pub dependencies: Seq<DependencyView>,
}

/// What a `Feature` holds.
pub struct FeatureView {
    pub title: Seq<char>,
    pub links: Seq<RecordView>,
    pub tasks: Seq<TaskView>,
}

/// The section of a task that the scanner is in.
#[derive(Clone, Copy, Debug, PartialEq, Eq, Structural)]
pub enum Context {
    Unknown,
    Documents,
    Links,
    Task,
    Effort,
    By,
    Notes,
    Ticket,
    Dependency,
}

/// The record that a link line denotes: the line must fall into exactly two
/// parts at `": "`. The label is the first part without hyphens and trimmed,
/// the value is the second part as it stands.
pub open spec fn link(line: Seq<char>) -> Option<RecordView> {
    let parts = pieces(line, ": "@);
    if parts.len() == 2 {
        Some(RecordView { label: trimmed(without_char(parts[0], '-')), value: parts[1] })
    } else {
        None
    }
}

/// The dependency that a line denotes: its first three words, split at single
/// spaces after trimming. A line of fewer than three words denotes none.
pub open spec fn dependency(line: Seq<char>) -> Option<DependencyView> {
    let words = pieces(trimmed(line), " "@);
    if words.len() >= 3 {
        Some(DependencyView { team_alias: words[0], by: Some(words[1]), description: words[2] })
    } else {
        None
    }
}

/// The text of a marker line behind its marker, trimmed.
pub open spec fn payload(line: Seq<char>, marker: Seq<char>) -> Seq<char> {
    trimmed(without_prefix(line, marker))
}

/// The effort that an `effort:` line denotes: the service is the first word
/// behind the marker, the person-days the second word read as an integer, or
/// zero where that word is missing or is no integer that fits.
pub open spec fn effort(line: Seq<char>) -> EffortView {
    let words = pieces(payload(line, "effort:"@), " "@);
    EffortView {
        service: words[0],
        pds: if words.len() > 1 {
            match integer_isize(words[1]) {
                Some(n) => n as int,
                None => 0,
            }
        } else {
            0
        },
    }
}

/// The resource that a `by:` line denotes: the name is the first word behind
/// the marker, the time the second word, or empty where there is none.
pub open spec fn resource(line: Seq<char>) -> ResourceView {
    let words = pieces(payload(line, "by:"@), " "@);
    ResourceView {
        name: words[0],
        when: if words.len() > 1 {
            words[1]
        } else {
            Seq::empty()
        },
    }
}

/// The section that a line opens, where it begins with the marker of one.
pub open spec fn keyword(line: Seq<char>) -> Option<Context> {
    if "effort:"@.is_prefix_of(line) {
        Some(Context::Effort)
    } else if "ticket:"@.is_prefix_of(line) {
        Some(Context::Ticket)
    } else if "by:"@.is_prefix_of(line) {
        Some(Context::By)
    } else if "notes:"@.is_prefix_of(line) {
        Some(Context::Notes)
    } else if "links:"@.is_prefix_of(line) {
        Some(Context::Links)
    } else if "dependencies:"@.is_prefix_of(line) {
        Some(Context::Dependency)
    } else {
        None
    }
}

/// The section in force once `line` is read in the section `context`: the one
/// that the line opens, or else the one before.
pub open spec fn next_context(context: Context, line: Seq<char>) -> Context {
    match keyword(line) {
        Some(k) => k,
        None => context,
    }
}

/// The task `task` once `line` is read in the section `context`.
///
/// A keyword line sets the field it names, where it carries a value, and adds
/// nothing to any list. Any other line goes to the list of the section it
/// stands in, if that section has one and the line is of its form.
pub open spec fn absorb(context: Context, task: TaskView, line: Seq<char>) -> TaskView {
    match keyword(line) {
        Some(Context::Effort) => TaskView { effort: Some(effort(line)), ..task },
        Some(Context::Ticket) => TaskView { ticket: payload(line, "ticket:"@), ..task },
        Some(Context::By) => TaskView { by: Some(resource(line)), ..task },
        Some(_) => task,
        None => match context {
            Context::Notes => TaskView { notes: task.notes.push(line), ..task },
            Context::Links => match link(line) {
                Some(r) => TaskView { links: task.links.push(r), ..task },
                None => task,
            },
            Context::Dependency => match dependency(line) {
                Some(d) => TaskView { dependencies: task.dependencies.push(d), ..task },
                None => task,
            },
            _ => task,
        },
    }
}

/// A task with a title and nothing else.
pub open spec fn blank_task(title: Seq<char>) -> TaskView {
    TaskView {
        title,
        links: Seq::empty(),
        by: None,
        effort: None,
        notes: Seq::empty(),
        ticket: Seq::empty(),
        dependencies: Seq::empty(),
    }
}

/// The section in force after the lines `lines`, read from the top.
pub open spec fn context_after(lines: Seq<Seq<char>>) -> Context
    decreases lines.len(),
{
    if lines.len() == 0 {
        Context::Unknown
    } else {
        next_context(context_after(lines.drop_last()), lines.last())
    }
}

/// The task titled `title` whose body is `lines`.
pub open spec fn task_after(title: Seq<char>, lines: Seq<Seq<char>>) -> TaskView
    decreases lines.len(),
{
    if lines.len() == 0 {
        blank_task(title)
    } else {
        absorb(
            context_after(lines.drop_last()),
            task_after(title, lines.drop_last()),
            lines.last(),
        )
    }
}

/// The positions of the lines that begin with `marker`, in rising order.
pub open spec fn markers(lines: Seq<Seq<char>>, marker: Seq<char>) -> Seq<int>
    decreases lines.len(),
{
    if lines.len() == 0 {
        Seq::empty()
    } else if marker.is_prefix_of(lines.last()) {
        markers(lines.drop_last(), marker).push(lines.len() - 1)
    } else {
        markers(lines.drop_last(), marker)
    }
}

/// Where the block of the `k`-th marker ends: at the next marker, or at the
/// end of the lines for the last one.
pub open spec fn block_end(lines: Seq<Seq<char>>, marker: Seq<char>, k: int) -> int {
    let m = markers(lines, marker);
    if k + 1 < m.len() {
        m[k + 1]
    } else {
        lines.len() as int
    }
}

/// The block of the `k`-th marker: its line and the lines up to the next
/// marker.
pub open spec fn block(lines: Seq<Seq<char>>, marker: Seq<char>, k: int) -> Seq<Seq<char>> {
    lines.subrange(markers(lines, marker)[k], block_end(lines, marker, k))
}

/// The lines above the first marker; all of them where there is no marker.
pub open spec fn preamble(lines: Seq<Seq<char>>, marker: Seq<char>) -> Seq<Seq<char>> {
    let m = markers(lines, marker);
    if m.len() == 0 {
        lines
    } else {
        lines.take(m[0])
    }
}

/// The task that a task block denotes: the first line gives the title, the
/// others are its body.
pub open spec fn task(block: Seq<Seq<char>>) -> TaskView {
    task_after(payload(block[0], "task:"@), block.drop_first())
}

/// The tasks among `lines`, one for each `task:` marker, in order.
pub open spec fn tasks(lines: Seq<Seq<char>>) -> Seq<TaskView> {
    Seq::new(markers(lines, "task:"@).len(), |k: int| task(block(lines, "task:"@, k)))
}

/// The document links that `lines` denote: a `docs:` line is a heading and
/// gives none, any other line gives its record if it is a link line.
pub open spec fn doc_links(lines: Seq<Seq<char>>) -> Seq<RecordView>
    decreases lines.len(),
{
    if lines.len() == 0 {
        Seq::empty()
    } else if "docs:"@.is_prefix_of(lines.last()) {
        doc_links(lines.drop_last())
    } else {
        match link(lines.last()) {
            Some(r) => doc_links(lines.drop_last()).push(r),
            None => doc_links(lines.drop_last()),
        }
    }
}

/// The feature that a feature block denotes. The first line gives the title.
/// The lines between it and the first `task:` marker give the document links,
/// the lines from that marker on give the tasks.
pub open spec fn feature(block: Seq<Seq<char>>) -> FeatureView {
    let body = block.drop_first();
    FeatureView {
        title: payload(block[0], "feature:"@),
        links: doc_links(preamble(body, "task:"@)),
        tasks: tasks(body),
    }
}

/// The features among `lines`, one for each `feature:` marker, in order.
/// Lines above the first marker belong to no feature.
pub open spec fn plan(lines: Seq<Seq<char>>) -> Seq<FeatureView> {
    Seq::new(markers(lines, "feature:"@).len(), |k: int| feature(block(lines, "feature:"@, k)))
}

/// Whether a trimmed line carries content: it is neither empty nor a comment.
pub open spec fn is_content(line: Seq<char>) -> bool {
    line.len() > 0 && !"//"@.is_prefix_of(line)
}

/// The raw lines `raw`, each trimmed, without the empty ones and the comments.
pub open spec fn content(raw: Seq<Seq<char>>) -> Seq<Seq<char>>
    decreases raw.len(),
{
    if raw.len() == 0 {
        Seq::empty()
    } else if is_content(trimmed(raw.last())) {
        content(raw.drop_last()).push(trimmed(raw.last()))
    } else {
        content(raw.drop_last())
    }
}

/// The lines of a document that carry content, trimmed, in order. A line ends
/// at a line feed; a carriage return before it is white space and is trimmed
/// away with the rest.
pub open spec fn normalized(text: Seq<char>) -> Seq<Seq<char>> {
    content(pieces(text, "\n"@))
}

/// The features that the text of a plan denotes.
pub open spec fn parse(text: Seq<char>) -> Seq<FeatureView> {
    plan(normalized(text))
}

} // verus!
