//! The plan parser: from the text of a plan to its features and tasks.
use crate::grammar;
use crate::grammar::{
    block, block_end, content, context_after, dependency, doc_links, effort, feature, link,
    markers, normalized, parse, payload, plan, resource, task, task_after, Context,
    DependencyView, EffortView, FeatureView, RecordView, ResourceView, TaskView,
};
use crate::text::{
    chars_of, lemma_pieces_nonempty, parse_isize, remove_char, split, starts_with, string_of,
    strip_prefix, trim,
};
use crate::views::{view_of, views};
use vstd::prelude::*;
use vstd::slice::slice_subrange;

verus! {

/// A label with its value: a link of a feature or of a task.
#[derive(Debug)]
pub struct Record {
    pub label: String,
    pub value: String,
}

/// What a task needs from another team.
#[derive(Debug)]
pub struct Dependency {
    pub team_alias: String,
    /// When it is needed by.
    pub by: Option<String>,
    pub description: String,
}

/// An estimate in person-days, for one service.
#[derive(Debug)]
pub struct Effort {
    pub pds: isize,
    pub service: String,
}

/// Who works on a task, and when.
#[derive(Debug)]
pub struct Resource {
    pub name: String,
    pub when: String,
}

/// One task of a feature.
#[derive(Debug)]
pub struct Task {
    pub title: String,
    pub links: Vec<Record>,
    pub by: Option<Resource>,
    pub effort: Option<Effort>,
    pub notes: Vec<String>,
    /// Empty where the task names no ticket.
    pub ticket: String,
    pub dependencies: Vec<Dependency>,
}

/// One feature of a plan, with its document links and its tasks.
#[derive(Debug)]
pub struct Feature {
    pub title: String,
    pub links: Vec<Record>,
    pub tasks: Vec<Task>,
}

impl View for Record {
    type V = RecordView;

    open spec fn view(&self) -> RecordView {
        RecordView { label: self.label@, value: self.value@ }
    }
}

impl View for Dependency {
    type V = DependencyView;

    open spec fn view(&self) -> DependencyView {
        DependencyView {
            team_alias: self.team_alias@,
            by: match self.by {
                Some(s) => Some(s@),
                None => None,
            },
            description: self.description@,
        }
    }
}

impl View for Effort {
    type V = EffortView;

    open spec fn view(&self) -> EffortView {
        EffortView { pds: self.pds as int, service: self.service@ }
    }
}

impl View for Resource {
    type V = ResourceView;

    open spec fn view(&self) -> ResourceView {
        ResourceView { name: self.name@, when: self.when@ }
    }
}

impl View for Task {
    type V = TaskView;

    open spec fn view(&self) -> TaskView {
        TaskView {
            title: self.title@,
            links: views(self.links@),
            by: match self.by {
                Some(r) => Some(r@),
                None => None,
            },
            effort: match self.effort {
                Some(e) => Some(e@),
                None => None,
            },
            notes: views(self.notes@),
            ticket: self.ticket@,
            dependencies: views(self.dependencies@),
        }
    }
}

impl View for Feature {
    type V = FeatureView;

    open spec fn view(&self) -> FeatureView {
        FeatureView { title: self.title@, links: views(self.links@), tasks: views(self.tasks@) }
    }
}

/// A run of lines: from the line `start` up to, not including, the line `end`.
#[derive(Debug)]
pub struct Block {
    pub start: usize,
    pub end: usize,
}

/// Whether `blocks` are the blocks that `marker` cuts `lines` into: one for
/// each marker line, in order, each from its marker to the next.
pub open spec fn cuts(blocks: Seq<Block>, lines: Seq<Seq<char>>, marker: Seq<char>) -> bool {
    &&& blocks.len() == markers(lines, marker).len()
    &&& forall|k: int|
        0 <= k < blocks.len() ==> {
            &&& (#[trigger] blocks[k]).start == markers(lines, marker)[k]
            &&& blocks[k].end == block_end(lines, marker, k)
            &&& blocks[k].start < blocks[k].end <= lines.len()
        }
}

/// Reads a link line, `label: value`.
pub fn get_link(from_line: &[char]) -> (r: Option<Record>)
    ensures
        view_of(r) == link(from_line@),
{
    let sections = split(from_line, ": ");
    assert(views(sections@).len() == sections@.len());
    if sections.len() == 2 {
        assert(views(sections@)[0] == sections@[0]@);
        assert(views(sections@)[1] == sections@[1]@);
        let bare = remove_char(sections[0], '-');
        let label = string_of(trim(bare.as_slice()));
        Some(Record { label, value: string_of(sections[1]) })
    } else {
        None
    }
}

/// Reads a dependency line: a team, a time and a description, separated by
/// single spaces. A line of fewer than three words gives nothing.
pub fn get_dependency(from: &[char]) -> (r: Option<Dependency>)
    ensures
        view_of(r) == dependency(from@),
{
    let words = split(trim(from), " ");
    assert(views(words@).len() == words@.len());
    if words.len() < 3 {
        return None;
    }
    assert(views(words@)[0] == words@[0]@);
    assert(views(words@)[1] == words@[1]@);
    assert(views(words@)[2] == words@[2]@);
    Some(
        Dependency {
            team_alias: string_of(words[0]),
            by: Some(string_of(words[1])),
            description: string_of(words[2]),
        },
    )
}

/// Reads an `effort:` line: a service and its person-days. The person-days
/// are zero where the line gives none or gives no integer.
pub fn get_effort(from: &[char]) -> (r: Option<Effort>)
    ensures
        view_of(r) == Some(effort(from@)),
{
    let v = split(trim(strip_prefix(from, "effort:")), " ");
    proof {
        lemma_pieces_nonempty(payload(from@, "effort:"@), " "@);
        assert(views(v@).len() == v@.len());
        assert(views(v@)[0] == v@[0]@);
    }
    let service = string_of(v[0]);
    let mut pds: isize = 0;
    if v.len() > 1 {
        assert(views(v@)[1] == v@[1]@);
        if let Some(n) = parse_isize(v[1]) {
            pds = n;
        }
    }
    Some(Effort { pds, service })
}

/// Reads a `by:` line: a name and, where the line gives one, a time.
pub fn get_by(from: &[char]) -> (r: Option<Resource>)
    ensures
        view_of(r) == Some(resource(from@)),
{
    let v = split(trim(strip_prefix(from, "by:")), " ");
    proof {
        lemma_pieces_nonempty(payload(from@, "by:"@), " "@);
        assert(views(v@).len() == v@.len());
        assert(views(v@)[0] == v@[0]@);
    }
    let name = string_of(v[0]);
    let when = if v.len() > 1 {
        assert(views(v@)[1] == v@[1]@);
        string_of(v[1])
    } else {
        String::new()
    };
    Some(Resource { name, when })
}

/// Builds the task titled `task_title` from the lines of its body.
///
/// The lines are read from the top. A keyword line opens its section; the
/// lines up to the next keyword line belong to that section.
pub fn get_task_v2(task_title: &str, from: &[&[char]]) -> (r: Option<Task>)
    ensures
        view_of(r) == Some(task_after(task_title@, views(from@))),
{
    let mut by: Option<Resource> = None;
    let mut effort: Option<Effort> = None;
    let mut ticket: String = String::new();
    let mut notes: Vec<String> = Vec::new();
    let mut links: Vec<Record> = Vec::new();
    let mut dependencies: Vec<Dependency> = Vec::new();
    let mut last_context = Context::Unknown;
    let ghost lines = views(from@);
    let mut i: usize = 0;
    assert(views(links@) =~= Seq::empty());
    assert(views(notes@) =~= Seq::empty());
    assert(views(dependencies@) =~= Seq::empty());
    while i < from.len()
        invariant
            i <= from@.len(),
            lines == views(from@),
            last_context == context_after(lines.take(i as int)),
            task_after(task_title@, lines.take(i as int)) == (TaskView {
                title: task_title@,
                links: views(links@),
                by: view_of(by),
                effort: view_of(effort),
                notes: views(notes@),
                ticket: ticket@,
                dependencies: views(dependencies@),
            }),
        decreases from@.len() - i,
    {
        let line = from[i];
        proof {
            assert(lines.take(i + 1).drop_last() =~= lines.take(i as int));
            assert(lines.take(i + 1).last() == line@);
        }
        if starts_with(line, "effort:") {
            last_context = Context::Effort;
            effort = get_effort(line);
        } else if starts_with(line, "ticket:") {
            last_context = Context::Ticket;
            ticket = string_of(trim(strip_prefix(line, "ticket:")));
        } else if starts_with(line, "by:") {
            last_context = Context::By;
            by = get_by(line);
        } else if starts_with(line, "notes:") {
            last_context = Context::Notes;
        } else if starts_with(line, "links:") {
            last_context = Context::Links;
        } else if starts_with(line, "dependencies:") {
            last_context = Context::Dependency;
        } else {
            match last_context {
                Context::Notes => {
                    let note = string_of(line);
                    assert(views(notes@.push(note)) =~= views(notes@).push(line@));
                    notes.push(note);
                },
                Context::Links => {
                    if let Some(l) = get_link(line) {
                        assert(views(links@.push(l)) =~= views(links@).push(l@));
                        links.push(l);
                    }
                },
                Context::Dependency => {
                    if let Some(d) = get_dependency(line) {
                        assert(views(dependencies@.push(d)) =~= views(dependencies@).push(d@));
                        dependencies.push(d);
                    }
                },
                _ => {},
            }
        }
        i += 1;
    }
    assert(lines.take(i as int) =~= lines);
    Some(Task { title: task_title.to_owned(), links, by, effort, notes, ticket, dependencies })
}

fn find_blocks(from: &[&[char]], marker: &str) -> (r: Vec<Block>)
    ensures
        cuts(r@, views(from@), marker@),
{
    let ghost lines = views(from@);
    let n: usize = from.len();
    let mut indexes: Vec<usize> = Vec::new();
    let mut index: usize = 0;
    while index < n
        invariant
            index <= n == from@.len(),
            lines == views(from@),
            indexes@.len() == markers(lines.take(index as int), marker@).len(),
            forall|k: int|
                0 <= k < indexes@.len() ==> indexes@[k] == markers(
                    lines.take(index as int),
                    marker@,
                )[k],
            forall|k: int| 0 <= k < indexes@.len() ==> indexes@[k] < index,
            forall|j: int, k: int| 0 <= j < k < indexes@.len() ==> indexes@[j] < indexes@[k],
        decreases n - index,
    {
        proof {
            assert(lines.take(index + 1).drop_last() =~= lines.take(index as int));
            assert(lines.take(index + 1).last() == from@[index as int]@);
        }
        if starts_with(from[index], marker) {
            indexes.push(index);
        }
        index = index + 1;
    }
    assert(lines.take(index as int) =~= lines);
    let mut blocks: Vec<Block> = Vec::new();
    let count: usize = indexes.len();
    let mut i: usize = 0;
    while i < count
        invariant
            i <= count == indexes@.len(),
            n == lines.len(),
            count == markers(lines, marker@).len(),
            forall|k: int| 0 <= k < count ==> indexes@[k] == markers(lines, marker@)[k],
            forall|k: int| 0 <= k < count ==> indexes@[k] < n,
            forall|j: int, k: int| 0 <= j < k < count ==> indexes@[j] < indexes@[k],
            blocks@.len() == i,
            forall|k: int|
                0 <= k < i ==> {
                    &&& (#[trigger] blocks@[k]).start == markers(lines, marker@)[k]
                    &&& blocks@[k].end == block_end(lines, marker@, k)
                    &&& blocks@[k].start < blocks@[k].end <= lines.len()
                },
        decreases count - i,
    {
        let end: usize = if i + 1 < count {
            indexes[i + 1]
        } else {
            n
        };
        blocks.push(Block { start: indexes[i], end });
        i = i + 1;
    }
    blocks
}

/// Finds the feature blocks: one for each line that begins with `feature:`,
/// from that line to the next such line or to the end.
pub fn get_feature_blocks(from: &[&[char]]) -> (r: Vec<Block>)
    ensures
        cuts(r@, views(from@), "feature:"@),
{
    find_blocks(from, "feature:")
}

/// Builds a task from its block: the `task:` line, then the body. An empty
/// block gives nothing.
pub fn extract_task(lines_source: &[&[char]]) -> (r: Option<Task>)
    ensures
        lines_source@.len() == 0 ==> r is None,
        lines_source@.len() > 0 ==> view_of(r) == Some(task(views(lines_source@))),
{
    if lines_source.len() == 0 {
        return None;
    }
    let title = string_of(trim(strip_prefix(lines_source[0], "task:")));
    let body = slice_subrange(lines_source, 1, lines_source.len());
    assert(views(body@) =~= views(lines_source@).drop_first());
    get_task_v2(title.as_str(), body)
}

/// Builds a feature from its block: the `feature:` line, then the document
/// links, then the tasks. An empty block gives nothing.
pub fn extract_feature(lines_source: &[&[char]]) -> (r: Option<Feature>)
    ensures
        lines_source@.len() == 0 ==> r is None,
        lines_source@.len() > 0 ==> view_of(r) == Some(feature(views(lines_source@))),
{
    if lines_source.len() == 0 {
        return None;
    }
    let title = string_of(trim(strip_prefix(lines_source[0], "feature:")));
    let body = slice_subrange(lines_source, 1, lines_source.len());
    let ghost lines = views(body@);
    assert(lines =~= views(lines_source@).drop_first());
    let blocks = find_blocks(body, "task:");
    let docs_end: usize = if blocks.len() > 0 {
        blocks[0].start
    } else {
        body.len()
    };
    let mut links: Vec<Record> = Vec::new();
    let mut i: usize = 0;
    assert(views(links@) =~= Seq::empty());
    while i < docs_end
        invariant
            i <= docs_end <= body@.len(),
            lines == views(body@),
            views(links@) == doc_links(lines.take(i as int)),
        decreases docs_end - i,
    {
        let line = body[i];
        proof {
            assert(lines.take(i + 1).drop_last() =~= lines.take(i as int));
            assert(lines.take(i + 1).last() == line@);
        }
        if !starts_with(line, "docs:") {
            if let Some(link) = get_link(line) {
                assert(views(links@.push(link)) =~= views(links@).push(link@));
                links.push(link);
            }
        }
        i = i + 1;
    }
    assert(lines.take(docs_end as int) =~= grammar::preamble(lines, "task:"@));
    let mut tasks: Vec<Task> = Vec::new();
    let mut k: usize = 0;
    assert(views(tasks@) =~= grammar::tasks(lines).take(0));
    while k < blocks.len()
        invariant
            k <= blocks@.len(),
            lines == views(body@),
            cuts(blocks@, lines, "task:"@),
            views(tasks@) == grammar::tasks(lines).take(k as int),
        decreases blocks@.len() - k,
    {
        let start: usize = blocks[k].start;
        let end: usize = blocks[k].end;
        let task_lines = slice_subrange(body, start, end);
        assert(views(task_lines@) =~= block(lines, "task:"@, k as int));
        if let Some(t) = extract_task(task_lines) {
            proof {
                assert(views(tasks@.push(t)) =~= views(tasks@).push(t@));
                assert(grammar::tasks(lines).take(k + 1) =~= grammar::tasks(lines).take(
                    k as int,
                ).push(task(block(lines, "task:"@, k as int))));
            }
            tasks.push(t);
        }
        k = k + 1;
    }
    assert(grammar::tasks(lines).take(k as int) =~= grammar::tasks(lines));
    Some(Feature { title, links, tasks })
}

/// Builds the features of a plan from its lines, one for each `feature:`
/// line. Lines above the first such line are passed over; with no such line
/// there is no feature.
pub fn extract_features(from: Vec<&[char]>) -> (r: Vec<Feature>)
    ensures
        views(r@) == plan(views(from@)),
{
    let ghost lines = views(from@);
    let blocks = get_feature_blocks(from.as_slice());
    let mut features: Vec<Feature> = Vec::new();
    let mut k: usize = 0;
    assert(views(features@) =~= plan(lines).take(0));
    while k < blocks.len()
        invariant
            k <= blocks@.len(),
            lines == views(from@),
            cuts(blocks@, lines, "feature:"@),
            views(features@) == plan(lines).take(k as int),
        decreases blocks@.len() - k,
    {
        let start: usize = blocks[k].start;
        let end: usize = blocks[k].end;
        let block_lines = slice_subrange(from.as_slice(), start, end);
        assert(views(block_lines@) =~= block(lines, "feature:"@, k as int));
        if let Some(feat) = extract_feature(block_lines) {
            proof {
                assert(views(features@.push(feat)) =~= views(features@).push(feat@));
                assert(plan(lines).take(k + 1) =~= plan(lines).take(k as int).push(
                    feature(block(lines, "feature:"@, k as int)),
                ));
            }
            features.push(feat);
        }
        k = k + 1;
    }
    assert(plan(lines).take(k as int) =~= plan(lines));
    features
}

/// Cuts a document into lines, trims each, and drops the empty lines and the
/// comments, which begin with `//`.
pub fn clear_content<'a>(from: &'a [char]) -> (r: Vec<&'a [char]>)
    ensures
        views(r@) == normalized(from@),
{
    let raw = split(from, "\n");
    let ghost lines = views(raw@);
    let mut target: Vec<&'a [char]> = Vec::new();
    let mut i: usize = 0;
    assert(views(target@) =~= Seq::empty());
    while i < raw.len()
        invariant
            i <= raw@.len(),
            lines == views(raw@),
            views(target@) == content(lines.take(i as int)),
        decreases raw@.len() - i,
    {
        let trimmed = trim(raw[i]);
        proof {
            assert(lines.take(i + 1).drop_last() =~= lines.take(i as int));
            assert(lines.take(i + 1).last() == raw@[i as int]@);
            assert(views(target@.push(trimmed)) =~= views(target@).push(trimmed@));
        }
        if trimmed.len() != 0 && !starts_with(trimmed, "//") {
            target.push(trimmed);
        }
        i = i + 1;
    }
    assert(lines.take(i as int) =~= lines);
    target
}

/// Whether `out` is the plan of `text`: the features that the text denotes,
/// and never an error.
pub open spec fn is_plan_of(text: Seq<char>, out: Result<Vec<Feature>, String>) -> bool {
    out matches Ok(features) && views(features@) == parse(text)
}

/// Converts the text of a plan into its features.
///
/// Every text has a plan: malformed lines are passed over, and a text
/// without a `feature:` line has the empty plan.
pub fn get_plan(from: &str) -> (r: Result<Vec<Feature>, String>)
    ensures
        is_plan_of(from@, r),
{
    let chars = chars_of(from);
    let features = extract_features(clear_content(chars.as_slice()));
    Ok(features)
}

} // verus!
